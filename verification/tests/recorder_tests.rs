use midi_melody_gui::events::{ControllerEvent, Speaker, SynthMsg};
use midi_melody_gui::recorder::{Recorder, DEFAULT_TIMEOUT};

fn engage(pitch: u8, velocity: u8) -> SynthMsg {
    SynthMsg {
        msg: ControllerEvent::NoteOn { pitch, velocity },
        speaker: Speaker::Left,
    }
}

fn release(pitch: u8) -> SynthMsg {
    SynthMsg {
        msg: ControllerEvent::NoteOff {
            pitch,
            velocity: 0,
        },
        speaker: Speaker::Left,
    }
}

#[test]
fn new_recorder_is_empty() {
    let mut rec = Recorder::new(DEFAULT_TIMEOUT, String::from("port-1"), 0);
    assert_eq!(rec.len(), 0);
    assert!(rec.is_empty());
    assert!(!rec.actively_recording(0));
    assert!(!rec.actively_soloing());
    assert_eq!(rec.input_port_name(), "port-1");
    assert_eq!(rec.pop_outgoing(), None);
}

#[test]
fn fast_events_land_in_one_recording() {
    let mut rec = Recorder::new(2_000_000, String::from("p"), 0);
    rec.receive(engage(60, 80), 0);
    rec.receive(release(60), 500_000);
    rec.receive(engage(62, 70), 1_000_000);
    assert_eq!(rec.len(), 1);
    let r = rec.index(0);
    assert_eq!(r.len(), 3);
    assert_eq!(r.get(0).time, 0);
    assert_eq!(
        r.get(0).msg,
        ControllerEvent::NoteOn {
            pitch: 60,
            velocity: 80
        }
    );
    assert_eq!(r.get(1).time, 500_000);
    assert_eq!(
        r.get(1).msg,
        ControllerEvent::NoteOff {
            pitch: 60,
            velocity: 0
        }
    );
    assert_eq!(r.get(2).time, 1_000_000);
    assert_eq!(
        r.get(2).msg,
        ControllerEvent::NoteOn {
            pitch: 62,
            velocity: 70
        }
    );
}

#[test]
fn gap_after_release_starts_new_recording() {
    // idle timeout 2.0 s: engage at 0.0 s, release at 0.5 s, engage at
    // 3.0 s (a 2.5 s gap after a release) opens a second recording.
    let mut rec = Recorder::new(2_000_000, String::from("p"), 0);
    rec.receive(engage(60, 100), 0);
    assert_eq!(rec.len(), 1);
    assert_eq!(rec.index(0).get(0).time, 0);
    rec.receive(release(60), 500_000);
    assert_eq!(rec.len(), 1);
    assert_eq!(rec.index(0).get(1).time, 500_000);
    rec.receive(engage(62, 90), 3_000_000);
    assert_eq!(rec.len(), 2);
    assert_eq!(rec.index(0).len(), 2);
    assert_eq!(rec.index(1).len(), 1);
    assert_eq!(rec.index(1).get(0).time, 0);
    assert_eq!(
        rec.index(1).get(0).msg,
        ControllerEvent::NoteOn {
            pitch: 62,
            velocity: 90
        }
    );
}

#[test]
fn engaged_note_bridges_long_gap() {
    // The last stored event is a still-engaged note, so even a gap far
    // beyond the timeout continues the same recording.
    let mut rec = Recorder::new(2_000_000, String::from("p"), 0);
    rec.receive(engage(60, 100), 0);
    assert!(rec.actively_recording(10_000_000));
    rec.receive(release(60), 10_000_000);
    assert_eq!(rec.len(), 1);
    assert_eq!(rec.index(0).len(), 2);
    assert_eq!(rec.index(0).get(1).time, 10_000_000);
}

#[test]
fn gap_of_exactly_the_timeout_goes_idle() {
    // The active window is strict: a gap equal to the timeout already
    // counts as idle when the last event was not an engaged note.
    let mut rec = Recorder::new(2_000_000, String::from("p"), 0);
    rec.receive(release(60), 1_000_000);
    assert!(rec.actively_recording(2_999_999));
    assert!(!rec.actively_recording(3_000_000));
    rec.receive(engage(60, 1), 3_000_000);
    assert_eq!(rec.len(), 2);
}

#[test]
fn velocity_zero_note_on_is_not_engaged() {
    // A note-on with zero intensity counts as a release for the
    // active-recording decision.
    let mut rec = Recorder::new(2_000_000, String::from("p"), 0);
    rec.receive(engage(60, 0), 0);
    assert!(!rec.actively_recording(2_000_000));
    rec.receive(engage(60, 50), 2_000_001);
    assert_eq!(rec.len(), 2);
}

#[test]
fn discard_removes_most_recent_only() {
    let mut rec = Recorder::new(2_000_000, String::from("p"), 0);
    rec.receive(engage(60, 80), 0);
    rec.receive(release(60), 100);
    rec.receive(engage(64, 80), 9_000_000);
    assert_eq!(rec.len(), 2);
    rec.delete_last_recording();
    assert_eq!(rec.len(), 1);
    // the remaining recording is the first one, untouched
    assert_eq!(rec.index(0).len(), 2);
    assert_eq!(
        rec.index(0).get(0).msg,
        ControllerEvent::NoteOn {
            pitch: 60,
            velocity: 80
        }
    );
    rec.delete_last_recording();
    assert_eq!(rec.len(), 0);
    rec.delete_last_recording();
    assert_eq!(rec.len(), 0);
}

#[test]
fn every_event_mirrors_one_relay_push() {
    // One push per accepted event, whatever the active-idle decision:
    // the first event opens a recording, the second extends it, the third
    // opens another; all three are mirrored, routed to both speakers.
    let mut rec = Recorder::new(2_000_000, String::from("p"), 0);
    rec.receive(engage(60, 80), 0);
    rec.receive(release(60), 500_000);
    rec.receive(engage(62, 70), 9_000_000);
    assert_eq!(
        rec.pop_outgoing(),
        Some(SynthMsg {
            msg: ControllerEvent::NoteOn {
                pitch: 60,
                velocity: 80
            },
            speaker: Speaker::Both,
        })
    );
    assert_eq!(
        rec.pop_outgoing(),
        Some(SynthMsg {
            msg: ControllerEvent::NoteOff {
                pitch: 60,
                velocity: 0
            },
            speaker: Speaker::Both,
        })
    );
    assert_eq!(
        rec.pop_outgoing(),
        Some(SynthMsg {
            msg: ControllerEvent::NoteOn {
                pitch: 62,
                velocity: 70
            },
            speaker: Speaker::Both,
        })
    );
    assert_eq!(rec.pop_outgoing(), None);
}

#[test]
fn injected_commands_bypass_log() {
    let mut rec = Recorder::new(2_000_000, String::from("p"), 0);
    rec.receive(engage(60, 80), 0);
    rec.program_change(5, Speaker::Left);
    // the log is exactly as before the injection
    assert_eq!(rec.len(), 1);
    assert_eq!(rec.index(0).len(), 1);
    assert_eq!(
        rec.index(0).get(0).msg,
        ControllerEvent::NoteOn {
            pitch: 60,
            velocity: 80
        }
    );
    // the command sits on the relay queue after the mirrored event,
    // with the speaker it was injected with
    assert_eq!(
        rec.pop_outgoing(),
        Some(SynthMsg {
            msg: ControllerEvent::NoteOn {
                pitch: 60,
                velocity: 80
            },
            speaker: Speaker::Both,
        })
    );
    assert_eq!(
        rec.pop_outgoing(),
        Some(SynthMsg {
            msg: ControllerEvent::ProgramChange { program: 5 },
            speaker: Speaker::Left,
        })
    );
    assert_eq!(rec.pop_outgoing(), None);
}

#[test]
fn relay_queue_is_fifo() {
    let mut rec = Recorder::new(2_000_000, String::from("p"), 0);
    rec.program_change(1, Speaker::Left);
    rec.program_change(2, Speaker::Right);
    rec.program_change(3, Speaker::Both);
    let a = rec.pop_outgoing().unwrap();
    let b = rec.pop_outgoing().unwrap();
    let c = rec.pop_outgoing().unwrap();
    assert_eq!(a.msg, ControllerEvent::ProgramChange { program: 1 });
    assert_eq!(b.msg, ControllerEvent::ProgramChange { program: 2 });
    assert_eq!(c.msg, ControllerEvent::ProgramChange { program: 3 });
    assert_eq!(rec.pop_outgoing(), None);
}

#[test]
fn opaque_events_are_recorded_and_relayed() {
    let mut rec = Recorder::new(2_000_000, String::from("p"), 0);
    let other = SynthMsg {
        msg: ControllerEvent::Other,
        speaker: Speaker::Right,
    };
    rec.receive(other, 1_000);
    assert_eq!(rec.len(), 1);
    assert_eq!(rec.index(0).get(0).msg, ControllerEvent::Other);
    assert_eq!(
        rec.pop_outgoing(),
        Some(SynthMsg {
            msg: ControllerEvent::Other,
            speaker: Speaker::Both,
        })
    );
}

#[test]
fn recording_reads_agree() {
    let mut rec = Recorder::new(2_000_000, String::from("p"), 0);
    rec.receive(engage(60, 80), 0);
    rec.receive(release(60), 1_000);
    let r = rec.index(0);
    let all = r.midi_queue();
    assert_eq!(all.len(), 2);
    assert_eq!(all[0], r.get(0));
    assert_eq!(all[1], r.get(1));
    assert_eq!(r.last(), Some(r.get(1)));
    assert_eq!(rec.last_msg_time(), 1_000);
}

#[test]
fn empty_recording_has_no_last_event() {
    let r = midi_melody_gui::events::Recording::new();
    assert_eq!(r.len(), 0);
    assert_eq!(r.last(), None);
    assert_eq!(r.midi_queue().len(), 0);
}

#[test]
fn default_timeout_is_two_seconds() {
    assert_eq!(DEFAULT_TIMEOUT, 2_000_000);
}
