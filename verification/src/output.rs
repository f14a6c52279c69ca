//! The output coordinator and the device-facing value types.
//!
//! `AudioOutput` owns the producer-side entry point into the mixer:
//! constructing it negotiates a stereo stream configuration for the
//! default output device, and `play` registers a signal for mixing,
//! returning a sink. The hardware itself is out of reach here; the
//! surrounding application probes the platform audio layer and hands
//! the library a [`DeviceDesc`] holding the plain values the logic
//! reads from a device, then drives the real stream from the returned
//! configuration.

use vstd::prelude::*;

use crate::mixer::{Mixer, stop_one};
use crate::signal::SplitSignal;

verus! {

/// What the logic reads of an output device: its preferred sample rate.
#[derive(Clone, Copy, Debug, PartialEq, Eq, Structural)]
pub struct DeviceDesc {
    pub sample_rate: u32,
}

/// The stream configuration negotiated at startup.
#[derive(Clone, Copy, Debug, PartialEq, Eq, Structural)]
pub struct StreamConfig {
    pub channels: u16,
    pub sample_rate: u32,
}

/// The fatal startup failures of the audio subsystem. Each is reported
/// once; the subsystem then simply does not come up.
#[derive(Clone, Copy, Debug, PartialEq, Eq, Structural)]
pub enum AudioError {
    /// No default output device exists.
    NoOutputDevice,
    /// The device rejected the request for its default configuration.
    ConfigRejected,
    /// Building the output stream failed.
    StreamBuild,
    /// Starting the built stream failed.
    StreamPlay,
}

/// The stream configuration used for a device: the device's preferred
/// sample rate with a two-channel (stereo) frame layout.
pub fn stream_config_for(device: &DeviceDesc) -> (c: StreamConfig)
    ensures
        c.channels == 2,
        c.sample_rate == device.sample_rate,
{
    StreamConfig { channels: 2, sample_rate: device.sample_rate }
}

/// A control handle for one in-flight signal that can also stop it.
///
/// Destroying a sink is deliberately decoupled from stopping the signal
/// it controls: the sink owns nothing, so letting it go out of scope
/// never ends playback. The only paths to the end of a signal are an
/// explicit [`AudioSink::stop`] and the signal's own completion.
#[derive(Clone, Copy, Debug, PartialEq, Eq, Structural)]
pub struct AudioSink {
    /// The mixer child this sink controls.
    pub child: u64,
}

/// The producer-facing owner of the mixer's control side.
pub struct AudioOutput {
    pub mixer: Mixer,
}

impl AudioOutput {
    /// Brings the audio subsystem up for the default output device, or
    /// reports the distinct fatal error when no device exists. On
    /// success the caller receives the coordinator with an empty mixer
    /// and the stereo configuration to drive the hardware stream with;
    /// on failure nothing is set up, so no background rendering can
    /// have been started.
    pub fn new(device: Option<DeviceDesc>) -> (r: Result<(AudioOutput, StreamConfig), AudioError>)
        ensures
            r is Ok <==> device is Some,
            device is None ==> r == Err::<(AudioOutput, StreamConfig), AudioError>(
                AudioError::NoOutputDevice,
            ),
            device is Some ==> {
                &&& r->Ok_0.0.mixer.children@ == Seq::<crate::mixer::Child>::empty()
                &&& r->Ok_0.0.mixer.next_id == 0
                &&& r->Ok_0.0.mixer.wf()
                &&& r->Ok_0.1.channels == 2
                &&& r->Ok_0.1.sample_rate == device->0.sample_rate
            },
    {
        match device {
            None => Err(AudioError::NoOutputDevice),
            Some(d) => {
                let config = stream_config_for(&d);
                Ok((AudioOutput { mixer: Mixer::new() }, config))
            },
        }
    }

    /// Begin playing a signal: the sole producer-facing operation. The
    /// signal joins the mixer's child set and the returned sink refers
    /// to it.
    pub fn play(&mut self, signal: SplitSignal) -> (sink: AudioSink)
        requires
            old(self).mixer.next_id < u64::MAX,
        ensures
            sink.child == old(self).mixer.next_id,
            final(self).mixer.children@ == old(self).mixer.children@.push(
                crate::mixer::Child {
                    id: old(self).mixer.next_id,
                    signal: signal.signal,
                    stopped: false,
                },
            ),
            final(self).mixer.next_id == old(self).mixer.next_id + 1,
            old(self).mixer.wf() ==> final(self).mixer.wf(),
    {
        let child = self.mixer.play(signal);
        AudioSink { child }
    }
}

impl AudioSink {
    /// Explicitly stop the signal this sink controls: the one cleanup
    /// path the sink offers. Children other than this sink's are left
    /// exactly as they were.
    pub fn stop(&self, output: &mut AudioOutput)
        ensures
            final(output).mixer.children@ == old(output).mixer.children@.map_values(
                |c: crate::mixer::Child| stop_one(c, self.child),
            ),
            final(output).mixer.next_id == old(output).mixer.next_id,
            old(output).mixer.wf() ==> final(output).mixer.wf(),
    {
        output.mixer.stop(self.child);
    }
}

} // verus!
