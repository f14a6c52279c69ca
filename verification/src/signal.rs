//! Signals and the handles produced when one is split for playback.
//!
//! A signal is a type-erased unit of per-sample computation. The model
//! reduces a signal to what the graph itself observes of one: how many
//! frames it will still produce before it completes. Splitting a signal
//! yields an inspection handle and the playable half, mirroring the
//! split of a real signal into a control side and a render side.

use vstd::prelude::*;

verus! {

/// One in-flight sound, reduced to the number of frames it has left.
#[derive(Clone, Copy, Debug, PartialEq, Eq, Structural)]
pub struct Signal {
    /// Frames remaining until the signal completes on its own.
    pub frames: u64,
}

/// The playable half of a split signal; handed to the mixer.
#[derive(Clone, Copy, Debug, PartialEq, Eq, Structural)]
pub struct SplitSignal {
    pub signal: Signal,
}

/// The inspection half of a split signal.
///
/// Destroying an `AudioHandle` is deliberately a no-op for the signal it
/// refers to: the handle owns nothing, so playback never ends because a
/// handle went out of scope.
#[derive(Clone, Copy, Debug, PartialEq, Eq, Structural)]
pub struct AudioHandle {
    pub signal: Signal,
}

/// Splits a signal into its inspection handle and its playable half.
pub fn split(signal: Signal) -> (r: (AudioHandle, SplitSignal))
    ensures
        r.0.signal == signal,
        r.1.signal == signal,
{
    (AudioHandle { signal }, SplitSignal { signal })
}

/// Source data that can be turned into a signal, given source-specific
/// playback settings. The surrounding application implements this for
/// each of its decoded sound-data types.
pub trait ToSignal {
    type Settings;

    /// The signal this source produces under the given settings.
    spec fn signal_of(&self, settings: Self::Settings) -> Signal;

    fn to_signal(&self, settings: &Self::Settings) -> (out: Signal)
        ensures
            out == self.signal_of(*settings),
    ;
}

/// A stored sound clip: the simplest source, a fixed number of frames.
#[derive(Clone, Copy, Debug, PartialEq, Eq, Structural)]
pub struct AudioClip {
    pub frames: u64,
}

/// Settings for playing an [`AudioClip`]: start that many frames in.
#[derive(Clone, Copy, Debug, PartialEq, Eq, Structural)]
pub struct ClipSettings {
    pub skip_frames: u64,
}

impl ToSignal for AudioClip {
    type Settings = ClipSettings;

    open spec fn signal_of(&self, settings: ClipSettings) -> Signal {
        Signal {
            frames: if settings.skip_frames < self.frames {
                (self.frames - settings.skip_frames) as u64
            } else {
                0
            },
        }
    }

    fn to_signal(&self, settings: &ClipSettings) -> (out: Signal) {
        let frames: u64 = if settings.skip_frames < self.frames {
            self.frames - settings.skip_frames
        } else {
            0
        };
        Signal { frames }
    }
}

} // verus!
