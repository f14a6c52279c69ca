//! The per-frame playback scheduler.
//!
//! Once per application frame, and once per source type, the host
//! invokes [`play_queued_audio`]. The pass snapshots the queue's
//! length, so work per frame is bounded even though deferred requests
//! are re-appended during the pass; each queued request is consumed
//! exactly once per pass, in order. A request whose source has resolved
//! starts playback and registers its two handles; one whose source is
//! still missing goes to the back of the queue for the next frame, with
//! no retry limit and no expiry.

use vstd::prelude::*;

use crate::mixer::Child;
use crate::output::{AudioOutput, AudioSink};
use crate::queue::{Audio, Request};
use crate::registry::{AudioHandles, AudioSinks, Registry};
use crate::seq_util::{
    count_of, kept, lemma_count_contains, lemma_kept_count, lemma_kept_count_absent,
    lemma_kept_index, lemma_kept_len, lemma_kept_pos_strict, lemma_kept_push,
};
use crate::signal::{split, AudioHandle, Signal, ToSignal};

verus! {

/// The source-data collaborator's store, reduced to what the scheduler
/// reads of it: which identifiers have resolved to source data. The
/// surrounding asset pipeline fills it, asynchronously and with
/// unspecified latency.
pub type Sources<S> = Registry<S>;

/// Whether a request's source data has resolved.
pub open spec fn available<S: ToSignal>(srcs: Map<u64, S>, r: Request<S>) -> bool {
    srcs.contains_key(r.source_id)
}

/// The signal a resolved request starts: its source's conversion under
/// the request's settings.
pub open spec fn signal_for<S: ToSignal>(srcs: Map<u64, S>, r: Request<S>) -> Signal {
    srcs[r.source_id].signal_of(r.settings)
}

/// The requests of `q` that one pass defers, in their original order.
pub open spec fn deferred_of<S: ToSignal>(q: Seq<Request<S>>, srcs: Map<u64, S>) -> Seq<
    Request<S>,
> {
    kept(q, |r: Request<S>| !available(srcs, r))
}

/// The requests of `q` that one pass resolves, in their original order.
pub open spec fn resolved_of<S: ToSignal>(q: Seq<Request<S>>, srcs: Map<u64, S>) -> Seq<
    Request<S>,
> {
    kept(q, |r: Request<S>| available(srcs, r))
}

/// The children one pass appends to the mixer: one per resolved
/// request, in request order, with identities issued from `id0` on.
pub open spec fn children_added<S: ToSignal>(
    played: Seq<Request<S>>,
    srcs: Map<u64, S>,
    id0: int,
) -> Seq<Child> {
    Seq::new(
        played.len(),
        |j: int|
            Child { id: (id0 + j) as u64, signal: signal_for(srcs, played[j]), stopped: false },
    )
}

/// The sink registry after one pass: a sink under each resolved
/// request's `sink_slot`, later requests overwriting earlier ones that
/// reserved the same slot.
pub open spec fn sinks_after<S: ToSignal>(
    m: Map<u64, AudioSink>,
    played: Seq<Request<S>>,
    id0: int,
) -> Map<u64, AudioSink>
    decreases played.len(),
{
    if played.len() == 0 {
        m
    } else {
        sinks_after(
            m.insert(played[0].sink_slot, AudioSink { child: id0 as u64 }),
            played.drop_first(),
            id0 + 1,
        )
    }
}

/// The raw-handle registry after one pass: an inspection handle under
/// each resolved request's `handle_slot`.
pub open spec fn handles_after<S: ToSignal>(
    m: Map<u64, AudioHandle>,
    played: Seq<Request<S>>,
    srcs: Map<u64, S>,
) -> Map<u64, AudioHandle>
    decreases played.len(),
{
    if played.len() == 0 {
        m
    } else {
        handles_after(
            m.insert(played[0].handle_slot, AudioHandle { signal: signal_for(srcs, played[0]) }),
            played.drop_first(),
            srcs,
        )
    }
}

proof fn lemma_sinks_after_push<S: ToSignal>(
    m: Map<u64, AudioSink>,
    played: Seq<Request<S>>,
    id0: int,
    x: Request<S>,
)
    ensures
        sinks_after(m, played.push(x), id0) == sinks_after(m, played, id0).insert(
            x.sink_slot,
            AudioSink { child: (id0 + played.len()) as u64 },
        ),
    decreases played.len(),
{
    if played.len() == 0 {
        let m1 = m.insert(x.sink_slot, AudioSink { child: id0 as u64 });
        assert(played.push(x)[0] == x);
        assert(played.push(x).drop_first() =~= Seq::<Request<S>>::empty());
        assert(sinks_after(m, played.push(x), id0) == sinks_after(
            m1,
            Seq::<Request<S>>::empty(),
            id0 + 1,
        ));
        assert(sinks_after(m1, Seq::<Request<S>>::empty(), id0 + 1) == m1);
    } else {
        assert(played.push(x)[0] == played[0]);
        assert(played.push(x).drop_first() =~= played.drop_first().push(x));
        lemma_sinks_after_push(
            m.insert(played[0].sink_slot, AudioSink { child: id0 as u64 }),
            played.drop_first(),
            id0 + 1,
            x,
        );
    }
}

proof fn lemma_handles_after_push<S: ToSignal>(
    m: Map<u64, AudioHandle>,
    played: Seq<Request<S>>,
    srcs: Map<u64, S>,
    x: Request<S>,
)
    ensures
        handles_after(m, played.push(x), srcs) == handles_after(m, played, srcs).insert(
            x.handle_slot,
            AudioHandle { signal: signal_for(srcs, x) },
        ),
    decreases played.len(),
{
    if played.len() == 0 {
        let m1 = m.insert(x.handle_slot, AudioHandle { signal: signal_for(srcs, x) });
        assert(played.push(x)[0] == x);
        assert(played.push(x).drop_first() =~= Seq::<Request<S>>::empty());
        assert(handles_after(m, played.push(x), srcs) == handles_after(
            m1,
            Seq::<Request<S>>::empty(),
            srcs,
        ));
        assert(handles_after(m1, Seq::<Request<S>>::empty(), srcs) == m1);
    } else {
        assert(played.push(x)[0] == played[0]);
        assert(played.push(x).drop_first() =~= played.drop_first().push(x));
        lemma_handles_after_push(
            m.insert(played[0].handle_slot, AudioHandle { signal: signal_for(srcs, played[0]) }),
            played.drop_first(),
            srcs,
            x,
        );
    }
}

/// Drain this frame's snapshot of the pending queue, in order. Each
/// request whose source has resolved starts playback: its signal joins
/// the mixer, a sink is stored under its `sink_slot` and a raw handle
/// under its `handle_slot`. Each request whose source is missing is
/// re-appended behind everything else. Nothing else changes.
pub fn play_queued_audio<S: ToSignal>(
    audio_output: &mut AudioOutput,
    audio: &mut Audio<S>,
    sources: &Sources<S>,
    sinks: &mut AudioSinks,
    handles: &mut AudioHandles,
)
    requires
        old(audio_output).mixer.next_id as int + old(audio).queue@.len() as int
            <= u64::MAX as int,
    ensures
        final(audio).queue@ == deferred_of(old(audio).queue@, sources@),
        final(audio_output).mixer.children@ == old(audio_output).mixer.children@
            + children_added(
            resolved_of(old(audio).queue@, sources@),
            sources@,
            old(audio_output).mixer.next_id as int,
        ),
        final(audio_output).mixer.next_id as int == old(audio_output).mixer.next_id as int
            + resolved_of(old(audio).queue@, sources@).len() as int,
        final(sinks)@ == sinks_after(
            old(sinks)@,
            resolved_of(old(audio).queue@, sources@),
            old(audio_output).mixer.next_id as int,
        ),
        final(handles)@ == handles_after(
            old(handles)@,
            resolved_of(old(audio).queue@, sources@),
            sources@,
        ),
        old(audio_output).mixer.wf() ==> final(audio_output).mixer.wf(),
{
    let ghost q0 = audio.queue@;
    let ghost srcs = sources@;
    let ghost ch0 = audio_output.mixer.children@;
    let ghost next0 = audio_output.mixer.next_id;
    let ghost s0 = sinks@;
    let ghost h0 = handles@;
    let ghost keep_def = |r: Request<S>| !available(srcs, r);
    let ghost keep_res = |r: Request<S>| available(srcs, r);

    let len = audio.queue.len();
    let mut i: usize = 0;
    while i < len
        invariant
            0 <= i <= len,
            len == q0.len(),
            srcs == sources@,
            keep_def == (|r: Request<S>| !available(srcs, r)),
            keep_res == (|r: Request<S>| available(srcs, r)),
            next0 as int + q0.len() as int <= u64::MAX as int,
            audio.queue@ == q0.subrange(i as int, len as int) + deferred_of(
                q0.subrange(0, i as int),
                srcs,
            ),
            audio_output.mixer.children@ == ch0 + children_added(
                resolved_of(q0.subrange(0, i as int), srcs),
                srcs,
                next0 as int,
            ),
            audio_output.mixer.next_id as int == next0 as int + resolved_of(
                q0.subrange(0, i as int),
                srcs,
            ).len() as int,
            sinks@ == sinks_after(s0, resolved_of(q0.subrange(0, i as int), srcs), next0 as int),
            handles@ == handles_after(h0, resolved_of(q0.subrange(0, i as int), srcs), srcs),
            ch0 == old(audio_output).mixer.children@,
            next0 == old(audio_output).mixer.next_id,
            s0 == old(sinks)@,
            h0 == old(handles)@,
            q0 == old(audio).queue@,
            old(audio_output).mixer.wf() ==> audio_output.mixer.wf(),
        decreases len - i,
    {
        let ghost pre = q0.subrange(0, i as int);
        let ghost res_pre = resolved_of(pre, srcs);
        proof {
            lemma_kept_len(pre, keep_res);
            assert(q0.subrange(i as int, len as int)[0] == q0[i as int]);
            assert(audio.queue@[0] == q0[i as int]);
        }
        let req = audio.queue.pop_front().unwrap();
        proof {
            assert(pre.push(req) =~= q0.subrange(0, i as int + 1));
            assert(audio.queue@ =~= q0.subrange(i as int + 1, len as int) + deferred_of(
                pre,
                srcs,
            ));
        }
        match sources.get(req.source_id) {
            Some(source) => {
                let sig = source.to_signal(&req.settings);
                let (raw_handle, split_signal) = split(sig);
                let sink = audio_output.play(split_signal);
                sinks.insert(req.sink_slot, sink);
                handles.insert(req.handle_slot, raw_handle);
                proof {
                    assert(available(srcs, req));
                    assert(sig == signal_for(srcs, req));
                    lemma_kept_push(pre, keep_res, req);
                    lemma_kept_push(pre, keep_def, req);
                    assert(resolved_of(q0.subrange(0, i as int + 1), srcs) == res_pre.push(req));
                    assert(deferred_of(q0.subrange(0, i as int + 1), srcs) == deferred_of(
                        pre,
                        srcs,
                    ));
                    let new_child = Child {
                        id: (next0 as int + res_pre.len()) as u64,
                        signal: signal_for(srcs, req),
                        stopped: false,
                    };
                    assert(children_added(res_pre.push(req), srcs, next0 as int) =~= children_added(
                        res_pre,
                        srcs,
                        next0 as int,
                    ).push(new_child));
                    assert(audio_output.mixer.children@ =~= ch0 + children_added(
                        res_pre.push(req),
                        srcs,
                        next0 as int,
                    ));
                    lemma_sinks_after_push(s0, res_pre, next0 as int, req);
                    lemma_handles_after_push(h0, res_pre, srcs, req);
                }
            },
            None => {
                audio.queue.push_back(req);
                proof {
                    assert(!available(srcs, req));
                    lemma_kept_push(pre, keep_def, req);
                    lemma_kept_push(pre, keep_res, req);
                    assert(resolved_of(q0.subrange(0, i as int + 1), srcs) == res_pre);
                    assert(deferred_of(q0.subrange(0, i as int + 1), srcs) == deferred_of(
                        pre,
                        srcs,
                    ).push(req));
                    assert(audio.queue@ =~= q0.subrange(i as int + 1, len as int) + deferred_of(
                        q0.subrange(0, i as int + 1),
                        srcs,
                    ));
                }
            },
        }
        i = i + 1;
    }
    proof {
        assert(q0.subrange(0, len as int) =~= q0);
        assert(q0.subrange(len as int, len as int) =~= Seq::<Request<S>>::empty());
        assert(audio.queue@ =~= deferred_of(q0, srcs));
    }
}

/// The queue left after the given number of whole scheduler passes,
/// each run against the same source store.
pub open spec fn queue_after_frames<S: ToSignal>(
    q: Seq<Request<S>>,
    srcs: Map<u64, S>,
    frames: nat,
) -> Seq<Request<S>>
    decreases frames,
{
    if frames == 0 {
        q
    } else {
        queue_after_frames(deferred_of(q, srcs), srcs, (frames - 1) as nat)
    }
}

/// A request whose source never resolves is consumed and re-appended
/// exactly once per pass: after any number of passes against a source
/// store that still lacks its source, the queue holds the request
/// exactly as often as at the start — it is never dropped and never
/// duplicated, so its per-frame cost stays bounded while its retries
/// are unbounded.
pub proof fn lemma_unresolved_request_persists<S: ToSignal>(
    q: Seq<Request<S>>,
    srcs: Map<u64, S>,
    req: Request<S>,
    frames: nat,
)
    requires
        !available(srcs, req),
    ensures
        count_of(queue_after_frames(q, srcs, frames), req) == count_of(q, req),
    decreases frames,
{
    if frames > 0 {
        lemma_kept_count(q, |r: Request<S>| !available(srcs, r), req);
        lemma_unresolved_request_persists(deferred_of(q, srcs), srcs, req, (frames - 1) as nat);
    }
}

proof fn lemma_sinks_after_mono<S: ToSignal>(
    m: Map<u64, AudioSink>,
    played: Seq<Request<S>>,
    id0: int,
    k: u64,
)
    requires
        m.contains_key(k),
    ensures
        sinks_after(m, played, id0).contains_key(k),
    decreases played.len(),
{
    if played.len() > 0 {
        lemma_sinks_after_mono(
            m.insert(played[0].sink_slot, AudioSink { child: id0 as u64 }),
            played.drop_first(),
            id0 + 1,
            k,
        );
    }
}

proof fn lemma_sinks_after_covers<S: ToSignal>(
    m: Map<u64, AudioSink>,
    played: Seq<Request<S>>,
    id0: int,
    req: Request<S>,
)
    requires
        played.contains(req),
    ensures
        sinks_after(m, played, id0).contains_key(req.sink_slot),
    decreases played.len(),
{
    let m1 = m.insert(played[0].sink_slot, AudioSink { child: id0 as u64 });
    if played[0] == req {
        lemma_sinks_after_mono(m1, played.drop_first(), id0 + 1, req.sink_slot);
    } else {
        let k = choose|k: int| 0 <= k < played.len() && played[k] == req;
        assert(played.drop_first()[k - 1] == req);
        lemma_sinks_after_covers(m1, played.drop_first(), id0 + 1, req);
    }
}

proof fn lemma_handles_after_mono<S: ToSignal>(
    m: Map<u64, AudioHandle>,
    played: Seq<Request<S>>,
    srcs: Map<u64, S>,
    k: u64,
)
    requires
        m.contains_key(k),
    ensures
        handles_after(m, played, srcs).contains_key(k),
    decreases played.len(),
{
    if played.len() > 0 {
        lemma_handles_after_mono(
            m.insert(played[0].handle_slot, AudioHandle { signal: signal_for(srcs, played[0]) }),
            played.drop_first(),
            srcs,
            k,
        );
    }
}

proof fn lemma_handles_after_covers<S: ToSignal>(
    m: Map<u64, AudioHandle>,
    played: Seq<Request<S>>,
    srcs: Map<u64, S>,
    req: Request<S>,
)
    requires
        played.contains(req),
    ensures
        handles_after(m, played, srcs).contains_key(req.handle_slot),
    decreases played.len(),
{
    let m1 = m.insert(played[0].handle_slot, AudioHandle { signal: signal_for(srcs, played[0]) });
    if played[0] == req {
        lemma_handles_after_mono(m1, played.drop_first(), srcs, req.handle_slot);
    } else {
        let k = choose|k: int| 0 <= k < played.len() && played[k] == req;
        assert(played.drop_first()[k - 1] == req);
        lemma_handles_after_covers(m1, played.drop_first(), srcs, req);
    }
}

/// A request whose source is available when a pass runs resolves within
/// that very pass: it never reappears in the queue the pass leaves, and
/// both registries come out holding an entry under its reserved slots.
pub proof fn lemma_available_request_resolves<S: ToSignal>(
    q: Seq<Request<S>>,
    srcs: Map<u64, S>,
    i: int,
    sinks0: Map<u64, AudioSink>,
    handles0: Map<u64, AudioHandle>,
    id0: int,
)
    requires
        0 <= i < q.len(),
        available(srcs, q[i]),
    ensures
        !deferred_of(q, srcs).contains(q[i]),
        count_of(deferred_of(q, srcs), q[i]) == 0,
        sinks_after(sinks0, resolved_of(q, srcs), id0).contains_key(q[i].sink_slot),
        handles_after(handles0, resolved_of(q, srcs), srcs).contains_key(q[i].handle_slot),
{
    lemma_kept_count_absent(q, |r: Request<S>| !available(srcs, r), q[i]);
    lemma_count_contains(deferred_of(q, srcs), q[i]);
    lemma_kept_index(q, |r: Request<S>| available(srcs, r), i);
    let p = kept(q.subrange(0, i), |r: Request<S>| available(srcs, r)).len() as int;
    assert(resolved_of(q, srcs)[p] == q[i]);
    assert(resolved_of(q, srcs).contains(q[i]));
    lemma_sinks_after_covers(sinks0, resolved_of(q, srcs), id0, q[i]);
    lemma_handles_after_covers(handles0, resolved_of(q, srcs), srcs, q[i]);
}

/// Requests that keep deferring keep their relative order within one
/// pass: when positions `i < j` of the queue both lack their source,
/// the queue the pass leaves holds the first strictly before the
/// second.
pub proof fn lemma_deferred_keeps_order<S: ToSignal>(
    q: Seq<Request<S>>,
    srcs: Map<u64, S>,
    i: int,
    j: int,
)
    requires
        0 <= i < j < q.len(),
        !available(srcs, q[i]),
        !available(srcs, q[j]),
    ensures
        exists|i2: int, j2: int|
            {
                &&& 0 <= i2 < j2 < deferred_of(q, srcs).len()
                &&& deferred_of(q, srcs)[i2] == q[i]
                &&& deferred_of(q, srcs)[j2] == q[j]
            },
{
    lemma_kept_index(q, |r: Request<S>| !available(srcs, r), i);
    lemma_kept_index(q, |r: Request<S>| !available(srcs, r), j);
    lemma_kept_pos_strict(q, |r: Request<S>| !available(srcs, r), i, j);
    let i2 = kept(q.subrange(0, i), |r: Request<S>| !available(srcs, r)).len() as int;
    let j2 = kept(q.subrange(0, j), |r: Request<S>| !available(srcs, r)).len() as int;
    assert({
        &&& 0 <= i2 < j2 < deferred_of(q, srcs).len()
        &&& deferred_of(q, srcs)[i2] == q[i]
        &&& deferred_of(q, srcs)[j2] == q[j]
    });
}

/// Two requests enqueued in order, neither of whose sources ever
/// resolves, are retried in that same relative order on every
/// subsequent pass.
pub proof fn lemma_fifo_across_frames<S: ToSignal>(
    q: Seq<Request<S>>,
    srcs: Map<u64, S>,
    i: int,
    j: int,
    frames: nat,
)
    requires
        0 <= i < j < q.len(),
        !available(srcs, q[i]),
        !available(srcs, q[j]),
    ensures
        exists|i2: int, j2: int|
            {
                &&& 0 <= i2 < j2 < queue_after_frames(q, srcs, frames).len()
                &&& queue_after_frames(q, srcs, frames)[i2] == q[i]
                &&& queue_after_frames(q, srcs, frames)[j2] == q[j]
            },
    decreases frames,
{
    if frames == 0 {
        assert({
            &&& 0 <= i < j < queue_after_frames(q, srcs, frames).len()
            &&& queue_after_frames(q, srcs, frames)[i] == q[i]
            &&& queue_after_frames(q, srcs, frames)[j] == q[j]
        });
    } else {
        lemma_deferred_keeps_order(q, srcs, i, j);
        let d = deferred_of(q, srcs);
        let (i1, j1) = choose|i1: int, j1: int|
            {
                &&& 0 <= i1 < j1 < d.len()
                &&& d[i1] == q[i]
                &&& d[j1] == q[j]
            };
        lemma_fifo_across_frames(d, srcs, i1, j1, (frames - 1) as nat);
        let r = queue_after_frames(d, srcs, (frames - 1) as nat);
        let (i2, j2) = choose|i2: int, j2: int|
            {
                &&& 0 <= i2 < j2 < r.len()
                &&& r[i2] == d[i1]
                &&& r[j2] == d[j1]
            };
        assert({
            &&& 0 <= i2 < j2 < queue_after_frames(q, srcs, frames).len()
            &&& queue_after_frames(q, srcs, frames)[i2] == q[i]
            &&& queue_after_frames(q, srcs, frames)[j2] == q[j]
        });
    }
}

} // verus!
