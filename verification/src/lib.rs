//! A verified model of a queued audio-output subsystem.
//!
//! The library covers the producer-facing half of an audio pipeline: a
//! mixer that sums dynamically added child signals (`mixer`), the
//! coordinator that turns a ready signal into a controllable sink
//! (`output`), a pending queue of playback requests (`queue`), registries
//! that keep playback handles alive independently of their creators
//! (`registry`), and the per-frame scheduler that drains the queue
//! (`scheduler`). The hardware device and the real-time callback live in
//! the surrounding application; the library models a device by the plain
//! values the logic reads from it.

pub mod mixer;
pub mod output;
pub mod queue;
pub mod registry;
pub mod scheduler;
pub mod seq_util;
pub mod signal;
