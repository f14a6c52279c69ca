use audio_out::output::{AudioOutput, DeviceDesc};
use audio_out::queue::Audio;
use audio_out::registry::{AudioHandles, AudioSinks};
use audio_out::scheduler::{play_queued_audio, Sources};
use audio_out::signal::{AudioClip, ClipSettings, Signal};

struct World {
    output: AudioOutput,
    audio: Audio<AudioClip>,
    sources: Sources<AudioClip>,
    sinks: AudioSinks,
    handles: AudioHandles,
}

fn world() -> World {
    let (output, _config) = AudioOutput::new(Some(DeviceDesc { sample_rate: 44100 })).unwrap();
    World {
        output,
        audio: Audio::new(),
        sources: Sources::new(),
        sinks: AudioSinks::new(),
        handles: AudioHandles::new(),
    }
}

fn pass(w: &mut World) {
    play_queued_audio(&mut w.output, &mut w.audio, &w.sources, &mut w.sinks, &mut w.handles);
}

fn no_skip() -> ClipSettings {
    ClipSettings { skip_frames: 0 }
}

#[test]
fn available_source_resolves_in_the_same_frame() {
    let mut w = world();
    w.sources.insert(1, AudioClip { frames: 50 });
    w.audio.play(1, no_skip(), 10, 20);
    assert_eq!(w.audio.len(), 1);
    pass(&mut w);
    assert_eq!(w.audio.len(), 0);
    assert!(w.sinks.contains(10));
    assert!(w.handles.contains(20));
    assert_eq!(w.output.mixer.children.len(), 1);
    assert_eq!(w.output.mixer.children[0].signal, Signal { frames: 50 });
}

#[test]
fn missing_source_is_retried_once_per_frame_forever() {
    let mut w = world();
    w.audio.play(99, no_skip(), 10, 20);
    for _ in 0..5 {
        pass(&mut w);
        // Still exactly one pending entry; nothing was registered.
        assert_eq!(w.audio.len(), 1);
        assert_eq!(w.sinks.len(), 0);
        assert_eq!(w.handles.len(), 0);
        assert_eq!(w.output.mixer.children.len(), 0);
    }
}

#[test]
fn source_arriving_on_the_third_frame_resolves_then() {
    let mut w = world();
    w.audio.play(7, ClipSettings { skip_frames: 5 }, 31, 32);
    pass(&mut w);
    assert_eq!(w.audio.len(), 1);
    assert_eq!(w.sinks.len(), 0);
    assert_eq!(w.handles.len(), 0);
    pass(&mut w);
    assert_eq!(w.audio.len(), 1);
    assert_eq!(w.sinks.len(), 0);
    assert_eq!(w.handles.len(), 0);
    // The source data resolves before the third frame.
    w.sources.insert(7, AudioClip { frames: 30 });
    pass(&mut w);
    assert_eq!(w.audio.len(), 0);
    assert!(w.sinks.contains(31));
    assert!(w.handles.contains(32));
    assert_eq!(w.output.mixer.children.len(), 1);
    assert_eq!(w.output.mixer.children[0].signal, Signal { frames: 25 });
}

#[test]
fn deferring_requests_keep_their_order() {
    let mut w = world();
    w.audio.play(1, no_skip(), 11, 12);
    w.audio.play(2, no_skip(), 21, 22);
    pass(&mut w);
    pass(&mut w);
    // Both still pending, first-enqueued still first: make source 1
    // available and check that only it resolves on the next pass while
    // source 2 stays queued behind it.
    w.sources.insert(1, AudioClip { frames: 10 });
    pass(&mut w);
    assert_eq!(w.audio.len(), 1);
    assert!(w.sinks.contains(11));
    assert!(!w.sinks.contains(21));
}

#[test]
fn same_source_in_two_slots_gives_two_independent_sinks() {
    let mut w = world();
    w.sources.insert(5, AudioClip { frames: 100 });
    w.audio.play(5, no_skip(), 41, 42);
    w.audio.play(5, no_skip(), 51, 52);
    pass(&mut w);
    assert_eq!(w.audio.len(), 0);
    assert_eq!(w.sinks.len(), 2);
    assert_eq!(w.handles.len(), 2);
    let a = *w.sinks.get(41).unwrap();
    let b = *w.sinks.get(51).unwrap();
    assert_ne!(a.child, b.child);
    // Stopping one leaves the other playing.
    a.stop(&mut w.output);
    w.output.mixer.render(10);
    assert_eq!(w.output.mixer.children.len(), 1);
    assert_eq!(w.output.mixer.children[0].id, b.child);
    assert_eq!(w.output.mixer.children[0].signal.frames, 90);
}

#[test]
fn a_pass_processes_only_this_frames_snapshot() {
    let mut w = world();
    // Two requests for missing sources: the pass pops and re-appends
    // each exactly once, so the queue length is unchanged afterwards.
    w.audio.play(1, no_skip(), 11, 12);
    w.audio.play(2, no_skip(), 21, 22);
    pass(&mut w);
    assert_eq!(w.audio.len(), 2);
}

#[test]
fn later_insert_for_the_same_slot_wins() {
    let mut w = world();
    w.sources.insert(1, AudioClip { frames: 10 });
    w.sources.insert(2, AudioClip { frames: 20 });
    // Two requests reserving the same sink slot: both play, the later
    // one's sink is what the registry keeps.
    w.audio.play(1, no_skip(), 77, 91);
    w.audio.play(2, no_skip(), 77, 92);
    pass(&mut w);
    assert_eq!(w.output.mixer.children.len(), 2);
    assert_eq!(w.sinks.len(), 1);
    let kept_sink = *w.sinks.get(77).unwrap();
    assert_eq!(kept_sink.child, w.output.mixer.children[1].id);
    assert_eq!(w.handles.len(), 2);
    assert_eq!(w.handles.get(91).unwrap().signal, Signal { frames: 10 });
    assert_eq!(w.handles.get(92).unwrap().signal, Signal { frames: 20 });
}
