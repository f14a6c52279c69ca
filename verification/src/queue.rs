//! The pending queue of playback requests.
//!
//! Producers append a request for each sound they want played; the
//! per-frame scheduler drains the queue from the front and re-appends
//! what could not be resolved yet. In the running system the queue sits
//! behind a writer lock held briefly per operation and is only ever
//! touched at application speed, never from the real-time callback.

use std::collections::VecDeque;

use vstd::prelude::*;

use crate::signal::ToSignal;

verus! {

/// One queued desire to play a sound: the identifier of the source
/// data, the source-specific settings, and the two identifiers under
/// which the resulting sink and raw handle will be registered.
pub struct Request<S: ToSignal> {
    pub source_id: u64,
    pub settings: S::Settings,
    pub sink_slot: u64,
    pub handle_slot: u64,
}

/// The producer-facing audio resource for one source type: its pending
/// queue of playback requests.
pub struct Audio<S: ToSignal> {
    pub queue: VecDeque<Request<S>>,
}

impl<S: ToSignal> Audio<S> {
    pub fn new() -> (a: Audio<S>)
        ensures
            a.queue@ == Seq::<Request<S>>::empty(),
    {
        let a = Audio { queue: VecDeque::new() };
        proof {
            assert(a.queue@ =~= Seq::<Request<S>>::empty());
        }
        a
    }

    /// Enqueue the desire to play `source_id` under the given settings,
    /// reserving `sink_slot` and `handle_slot` for the handles that
    /// playback will produce. The request goes to the back of the
    /// queue; it is consumed exactly once per scheduler pass, either
    /// resolved or re-appended.
    pub fn play(&mut self, source_id: u64, settings: S::Settings, sink_slot: u64, handle_slot: u64)
        ensures
            final(self).queue@ == old(self).queue@.push(
                Request { source_id, settings, sink_slot, handle_slot },
            ),
    {
        self.queue.push_back(Request { source_id, settings, sink_slot, handle_slot });
    }

    pub fn len(&self) -> (n: usize)
        ensures
            n == self.queue@.len(),
    {
        self.queue.len()
    }
}

impl<S: ToSignal> Default for Audio<S> {
    fn default() -> (a: Self)
        ensures
            a.queue@ == Seq::<Request<S>>::empty(),
    {
        Audio::new()
    }
}

} // verus!
