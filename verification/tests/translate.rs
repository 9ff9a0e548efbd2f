use mini_piano::midi_out::{default_midi_message, to_portmidi_message, MidiMsg, OutMessage};
use mini_piano::notes::{handle_input, to_note_key, Action, Opts, State};

fn opts() -> Opts {
    Opts {
        list_devices: false,
        output_device: None,
        velocity: 100,
        initial_mode: 3,
        mode_offset: 3,
    }
}

#[test]
fn initial_state_is_zero_based() {
    let s = State::initial(&opts());
    assert_eq!(s.mode_index, 2);
}

#[test]
fn translate_mode_two_first_key() {
    // one-based mode 2 is index 1: (1 + 3) * 12 + 0
    assert_eq!(to_note_key(1, &opts(), "w1"), Ok(48));
}

#[test]
fn translate_last_vocabulary_entry() {
    // "w15" is slot 24: 3 * 12 + 24
    assert_eq!(to_note_key(0, &opts(), "w15"), Ok(60));
}

#[test]
fn translate_middle_entries() {
    assert_eq!(to_note_key(0, &opts(), "b1"), Ok(37));
    assert_eq!(to_note_key(0, &opts(), "w10"), Ok(52));
}

#[test]
fn unknown_key_is_an_explicit_error() {
    assert_eq!(
        to_note_key(0, &opts(), "zz"),
        Err("Unknown key_name: zz".to_string())
    );
    assert!(to_note_key(0, &opts(), "").is_err());
}

#[test]
fn mode_nine_rejected_mode_five_accepted() {
    let o = opts();
    let mut s = State { mode_index: 2 };
    let act = handle_input(&mut s, &o, "PRESS m9");
    assert_eq!(act, Action::ModeOutOfRange { requested: 9 });
    assert_eq!(s.mode_index, 2);

    let act = handle_input(&mut s, &o, "PRESS m5");
    assert_eq!(act, Action::ModeChanged { mode_index: 4 });
    assert_eq!(s.mode_index, 4);

    // a trailing line break is stripped before the suffix is parsed
    let act = handle_input(&mut s, &o, "PRESS m2\r\n");
    assert_eq!(act, Action::ModeChanged { mode_index: 1 });
    assert_eq!(s.mode_index, 1);
}

#[test]
fn mode_zero_and_garbage_suffixes() {
    let o = opts();
    let mut s = State { mode_index: 2 };
    assert_eq!(handle_input(&mut s, &o, "PRESS m0"), Action::ModeOutOfRange { requested: 0 });
    assert_eq!(handle_input(&mut s, &o, "PRESS mx"), Action::ModeUnparseable);
    assert_eq!(handle_input(&mut s, &o, "PRESS m"), Action::ModeUnparseable);
    assert_eq!(
        handle_input(&mut s, &o, "PRESS m99999999999"),
        Action::ModeUnparseable
    );
    assert_eq!(s.mode_index, 2);
}

#[test]
fn mode_release_is_ignored() {
    let o = opts();
    let mut s = State { mode_index: 2 };
    assert_eq!(handle_input(&mut s, &o, "RELEASE m5"), Action::ModeKeyIgnored);
    assert_eq!(s.mode_index, 2);
}

#[test]
fn invalid_lines_are_reported_and_skipped() {
    let o = opts();
    let mut s = State { mode_index: 2 };
    assert_eq!(handle_input(&mut s, &o, "hello"), Action::InvalidLine);
    assert_eq!(handle_input(&mut s, &o, ""), Action::InvalidLine);
    assert_eq!(handle_input(&mut s, &o, "PRESS"), Action::InvalidLine);
    assert_eq!(s.mode_index, 2);
}

#[test]
fn trailing_carriage_return_still_plays() {
    let o = opts();
    let mut s = State { mode_index: 2 };
    let bare = handle_input(&mut s, &o, "PRESS w1");
    let crlf = handle_input(&mut s, &o, "PRESS w1\r\n");
    assert_eq!(bare, crlf);
    assert!(matches!(bare, Action::Play { on: true, .. }));
}

#[test]
fn unknown_play_key_is_dropped() {
    let o = opts();
    let mut s = State { mode_index: 2 };
    assert_eq!(handle_input(&mut s, &o, "PRESS nope"), Action::UnknownKey);
}

#[test]
fn press_then_release_play_the_same_note() {
    let o = opts();
    let mut s = State { mode_index: 2 };
    let down = handle_input(&mut s, &o, "PRESS w1");
    let up = handle_input(&mut s, &o, "RELEASE w1");
    let note_down = match down {
        Action::Play { on: true, note, velocity } => {
            assert_eq!(velocity, 100);
            note
        },
        other => panic!("expected a note-on, got {:?}", other),
    };
    let note_up = match up {
        Action::Play { on: false, note, velocity } => {
            assert_eq!(velocity, 100);
            note
        },
        other => panic!("expected a note-off, got {:?}", other),
    };
    assert_eq!(note_down, note_up);
    assert_eq!(note_down, (2 + 3) * 12);
}

#[test]
fn note_commands_become_device_messages() {
    assert_eq!(
        to_portmidi_message(OutMessage::NoteOn { note: 60, velocity: 100 }),
        MidiMsg { status: 144, data1: 60, data2: 100, data3: 0 }
    );
    assert_eq!(
        to_portmidi_message(OutMessage::NoteOff { note: 60, velocity: 100 }),
        MidiMsg { status: 128, data1: 60, data2: 100, data3: 0 }
    );
    assert_eq!(
        to_portmidi_message(OutMessage::Start),
        MidiMsg { status: 250, data1: 0, data2: 0, data3: 0 }
    );
    // values beyond the 7-bit wire range are masked as the midi crate masks them
    assert_eq!(
        to_portmidi_message(OutMessage::NoteOn { note: 200, velocity: 130 }),
        MidiMsg { status: 144, data1: 72, data2: 2, data3: 0 }
    );
}

#[test]
fn default_message_is_all_zero() {
    assert_eq!(
        default_midi_message(),
        MidiMsg { status: 0, data1: 0, data2: 0, data3: 0 }
    );
}
