use audio_out::mixer::Mixer;
use audio_out::output::{AudioError, AudioOutput, DeviceDesc, StreamConfig, stream_config_for};
use audio_out::registry::AudioSinks;
use audio_out::signal::{split, AudioClip, ClipSettings, Signal, ToSignal};

fn output() -> AudioOutput {
    let (out, _config) = AudioOutput::new(Some(DeviceDesc { sample_rate: 44100 })).unwrap();
    out
}

#[test]
fn construction_without_device_is_a_fatal_startup_error() {
    let r = AudioOutput::new(None);
    assert_eq!(r.err(), Some(AudioError::NoOutputDevice));
}

#[test]
fn construction_with_device_negotiates_stereo_at_device_rate() {
    let (out, config) = AudioOutput::new(Some(DeviceDesc { sample_rate: 48000 })).unwrap();
    assert_eq!(config, StreamConfig { channels: 2, sample_rate: 48000 });
    assert_eq!(out.mixer.children.len(), 0);
}

#[test]
fn stream_config_is_two_channels_at_the_device_rate() {
    let c = stream_config_for(&DeviceDesc { sample_rate: 22050 });
    assert_eq!(c.channels, 2);
    assert_eq!(c.sample_rate, 22050);
}

#[test]
fn clip_conversion_subtracts_the_skip() {
    let clip = AudioClip { frames: 100 };
    assert_eq!(clip.to_signal(&ClipSettings { skip_frames: 30 }), Signal { frames: 70 });
    assert_eq!(clip.to_signal(&ClipSettings { skip_frames: 0 }), Signal { frames: 100 });
    assert_eq!(clip.to_signal(&ClipSettings { skip_frames: 100 }), Signal { frames: 0 });
    assert_eq!(clip.to_signal(&ClipSettings { skip_frames: 200 }), Signal { frames: 0 });
}

#[test]
fn split_halves_refer_to_the_same_signal() {
    let (handle, playable) = split(Signal { frames: 17 });
    assert_eq!(handle.signal, Signal { frames: 17 });
    assert_eq!(playable.signal, Signal { frames: 17 });
}

#[test]
fn render_advances_children_and_removes_completed_ones() {
    let mut m = Mixer::new();
    let (_h1, s1) = split(Signal { frames: 100 });
    let (_h2, s2) = split(Signal { frames: 40 });
    m.play(s1);
    m.play(s2);
    assert_eq!(m.children.len(), 2);
    m.render(40);
    // The 40-frame child completed within the pass; the other advanced.
    assert_eq!(m.children.len(), 1);
    assert_eq!(m.children[0].signal.frames, 60);
    m.render(60);
    assert_eq!(m.children.len(), 0);
}

#[test]
fn stopping_a_sink_halts_exactly_its_own_signal() {
    let mut out = output();
    let (_h1, s1) = split(Signal { frames: 100 });
    let (_h2, s2) = split(Signal { frames: 100 });
    let sink1 = out.play(s1);
    let sink2 = out.play(s2);
    assert_ne!(sink1.child, sink2.child);
    sink1.stop(&mut out);
    assert!(out.mixer.children[0].stopped);
    assert!(!out.mixer.children[1].stopped);
    out.mixer.render(10);
    // Only the stopped child was removed; the other advanced.
    assert_eq!(out.mixer.children.len(), 1);
    assert_eq!(out.mixer.children[0].id, sink2.child);
    assert_eq!(out.mixer.children[0].signal.frames, 90);
}

#[test]
fn dropping_a_sink_never_stops_playback() {
    let mut out = output();
    let (_h, s) = split(Signal { frames: 100 });
    let sink = out.play(s);
    drop(sink);
    out.mixer.render(25);
    // The signal plays on exactly as if the sink still existed.
    assert_eq!(out.mixer.children.len(), 1);
    assert_eq!(out.mixer.children[0].signal.frames, 75);
    assert!(!out.mixer.children[0].stopped);
}

#[test]
fn default_registries_and_queue_start_empty() {
    let sinks = AudioSinks::default();
    assert_eq!(sinks.len(), 0);
    let handles = audio_out::registry::AudioHandles::default();
    assert_eq!(handles.len(), 0);
    let audio = audio_out::queue::Audio::<AudioClip>::default();
    assert_eq!(audio.len(), 0);
}

#[test]
fn registry_inserts_overwrite_and_lookups_see_them() {
    let mut sinks = AudioSinks::new();
    assert_eq!(sinks.len(), 0);
    assert!(!sinks.contains(7));
    let mut out = output();
    let (_h, s) = split(Signal { frames: 5 });
    let a = out.play(s);
    sinks.insert(7, a);
    assert_eq!(sinks.len(), 1);
    assert!(sinks.contains(7));
    assert_eq!(sinks.get(7).copied(), Some(a));
    let (_h2, s2) = split(Signal { frames: 6 });
    let b = out.play(s2);
    sinks.insert(7, b);
    assert_eq!(sinks.len(), 1);
    assert_eq!(sinks.get(7).copied(), Some(b));
    assert_eq!(sinks.get(8), None);
}
