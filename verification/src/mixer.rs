//! The signal-graph primitive: a mixer that sums a dynamically changing
//! set of child signals.
//!
//! The real primitive is split into a control side, shared by any
//! number of producer threads, and a render side driven by the
//! real-time audio callback. This model exposes both faces on one
//! structure and reasons about the sequential interleaving of their
//! operations; what each operation does to the child set is stated
//! exactly. Frame data itself (and with it the absorption of a faulty
//! child as silence) is the concern of the real-time half in the
//! surrounding application: the model observes a child only through the
//! number of frames it has left.

use vstd::prelude::*;

use crate::seq_util::{keep_map, lemma_keep_map_push};
use crate::signal::{Signal, SplitSignal};

verus! {

/// One registered child of the mixer.
#[derive(Clone, Copy, Debug, PartialEq, Eq, Structural)]
pub struct Child {
    /// Identity of this child, unique for the mixer that issued it.
    pub id: u64,
    /// What remains of the child's signal.
    pub signal: Signal,
    /// Set by an explicit stop request; the next render pass removes
    /// the child.
    pub stopped: bool,
}

/// A child advanced by one render pass of `frames` frames.
pub open spec fn advance_child(c: Child, frames: u64) -> Child {
    Child { signal: Signal { frames: (c.signal.frames - frames) as u64 }, ..c }
}

/// Whether a child survives a render pass of `frames` frames: it was
/// not stopped and its signal does not complete within the pass.
pub open spec fn keeps_playing(c: Child, frames: u64) -> bool {
    !c.stopped && c.signal.frames > frames
}

/// The child set after one render pass: stopped and completed children
/// are removed, every other child advances by the pass's frame count.
pub open spec fn render_seq(s: Seq<Child>, frames: u64) -> Seq<Child> {
    keep_map(s, |c: Child| keeps_playing(c, frames), |c: Child| advance_child(c, frames))
}

/// The mixer: an ordered set of children plus the counter that issues
/// child identities.
pub struct Mixer {
    pub children: Vec<Child>,
    pub next_id: u64,
}

impl Mixer {
    /// Every child's identity was issued by this mixer's counter, so a
    /// newly issued identity never collides with a registered child.
    pub open spec fn wf(&self) -> bool {
        forall|k: int|
            0 <= k < self.children@.len() ==> (#[trigger] self.children@[k]).id < self.next_id
    }

    pub fn new() -> (m: Mixer)
        ensures
            m.children@ == Seq::<Child>::empty(),
            m.next_id == 0,
            m.wf(),
    {
        let m = Mixer { children: Vec::new(), next_id: 0 };
        proof {
            assert(m.children@ =~= Seq::<Child>::empty());
        }
        m
    }

    /// Control side: register a new child signal for mixing. The child
    /// is appended to the set and receives a fresh identity, which the
    /// caller's handle refers to.
    pub fn play(&mut self, signal: SplitSignal) -> (child: u64)
        requires
            old(self).next_id < u64::MAX,
        ensures
            child == old(self).next_id,
            final(self).children@ == old(self).children@.push(
                Child { id: old(self).next_id, signal: signal.signal, stopped: false },
            ),
            final(self).next_id == old(self).next_id + 1,
            old(self).wf() ==> final(self).wf(),
    {
        let id = self.next_id;
        self.children.push(Child { id, signal: signal.signal, stopped: false });
        self.next_id = self.next_id + 1;
        id
    }

    /// Control side: mark the child with the given identity as stopped.
    /// Every other child is left exactly as it was.
    pub fn stop(&mut self, child: u64)
        ensures
            final(self).children@ == old(self).children@.map_values(
                |c: Child| stop_one(c, child),
            ),
            final(self).next_id == old(self).next_id,
            old(self).wf() ==> final(self).wf(),
    {
        let ghost s0 = self.children@;
        let n = self.children.len();
        let mut out: Vec<Child> = Vec::new();
        let mut i: usize = 0;
        while i < n
            invariant
                0 <= i <= n,
                n == s0.len(),
                self.children@ == s0,
                out@ == s0.subrange(0, i as int).map_values(|c: Child| stop_one(c, child)),
            decreases n - i,
        {
            let c = self.children[i];
            if c.id == child {
                out.push(Child { stopped: true, ..c });
            } else {
                out.push(c);
            }
            proof {
                assert(out@ =~= s0.subrange(0, i + 1).map_values(|c: Child| stop_one(c, child)));
            }
            i = i + 1;
        }
        proof {
            assert(s0.subrange(0, n as int) =~= s0);
        }
        self.children = out;
    }

    /// Render side: advance every playing child by `frames` frames and
    /// drop the children that were stopped or that complete within the
    /// pass. The real callback performs no allocation and never fails;
    /// this model states only what the pass does to the child set.
    pub fn render(&mut self, frames: u64)
        ensures
            final(self).children@ == render_seq(old(self).children@, frames),
            final(self).next_id == old(self).next_id,
            old(self).wf() ==> final(self).wf(),
    {
        let ghost s0 = self.children@;
        let ghost keep = |c: Child| keeps_playing(c, frames);
        let ghost f = |c: Child| advance_child(c, frames);
        let n = self.children.len();
        let mut out: Vec<Child> = Vec::new();
        let mut i: usize = 0;
        while i < n
            invariant
                0 <= i <= n,
                n == s0.len(),
                self.children@ == s0,
                out@ == keep_map(s0.subrange(0, i as int), keep, f),
                keep == (|c: Child| keeps_playing(c, frames)),
                f == (|c: Child| advance_child(c, frames)),
            decreases n - i,
        {
            let c = self.children[i];
            proof {
                assert(s0.subrange(0, i + 1) =~= s0.subrange(0, i as int).push(s0[i as int]));
                lemma_keep_map_push(s0.subrange(0, i as int), keep, f, s0[i as int]);
            }
            if !c.stopped && c.signal.frames > frames {
                out.push(Child { id: c.id, signal: Signal { frames: c.signal.frames - frames }, stopped: c.stopped });
                proof {
                    assert(Child {
                        id: c.id,
                        signal: Signal { frames: (c.signal.frames - frames) as u64 },
                        stopped: c.stopped,
                    } == f(s0[i as int]));
                }
            }
            i = i + 1;
        }
        proof {
            assert(s0.subrange(0, n as int) =~= s0);
        }
        self.children = out;
        proof {
            if old(self).wf() {
                lemma_render_ids_bounded(s0, frames, old(self).next_id);
            }
        }
    }
}

/// Playback ends only through an explicit stop or the signal's own
/// completion: a render pass keeps every child that is neither stopped
/// nor finishing within the pass, advanced by the pass's frame count.
/// Destruction of a sink or handle is not an operation of the mixer at
/// all, so it cannot end playback.
pub proof fn lemma_playback_survives_render(s: Seq<Child>, frames: u64, k: int)
    requires
        0 <= k < s.len(),
        !s[k].stopped,
        s[k].signal.frames > frames,
    ensures
        render_seq(s, frames).contains(advance_child(s[k], frames)),
{
    crate::seq_util::lemma_keep_map_index(
        s,
        |c: Child| keeps_playing(c, frames),
        |c: Child| advance_child(c, frames),
        k,
    );
    let p = crate::seq_util::keep_map(
        s.subrange(0, k),
        |c: Child| keeps_playing(c, frames),
        |c: Child| advance_child(c, frames),
    ).len() as int;
    assert(render_seq(s, frames)[p] == advance_child(s[k], frames));
}

/// A stop request is selective: every child other than its target is
/// left exactly as it was.
pub proof fn lemma_stop_is_selective(s: Seq<Child>, target: u64, k: int)
    requires
        0 <= k < s.len(),
        s[k].id != target,
    ensures
        s.map_values(|c: Child| stop_one(c, target))[k] == s[k],
{
}

/// `c` with its stopped flag raised when its identity is `target`.
pub open spec fn stop_one(c: Child, target: u64) -> Child {
    if c.id == target {
        Child { stopped: true, ..c }
    } else {
        c
    }
}

/// A render pass only removes and advances children, so an identity
/// bound on the child set survives it.
pub proof fn lemma_render_ids_bounded(s: Seq<Child>, frames: u64, bound: u64)
    requires
        forall|k: int| 0 <= k < s.len() ==> (#[trigger] s[k]).id < bound,
    ensures
        forall|k: int|
            0 <= k < render_seq(s, frames).len() ==> (#[trigger] render_seq(s, frames)[k]).id
                < bound,
    decreases s.len(),
{
    if s.len() > 0 {
        assert(forall|k: int|
            0 <= k < s.drop_first().len() ==> (#[trigger] s.drop_first()[k]).id < bound);
        lemma_render_ids_bounded(s.drop_first(), frames, bound);
        let keep = |c: Child| keeps_playing(c, frames);
        let f = |c: Child| advance_child(c, frames);
        if keep(s[0]) {
            assert(render_seq(s, frames)[0] == f(s[0]));
            assert(forall|k: int|
                1 <= k < render_seq(s, frames).len() ==> render_seq(s, frames)[k]
                    == render_seq(s.drop_first(), frames)[k - 1]);
        } else {
            assert(render_seq(s, frames) == render_seq(s.drop_first(), frames));
        }
    }
}

} // verus!
