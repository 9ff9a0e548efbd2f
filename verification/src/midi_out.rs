use vstd::prelude::*;

verus! {

/// A note command for the sound sink, on the one fixed channel.
#[derive(Clone, Copy, PartialEq, Eq, Structural, Debug)]
pub enum OutMessage {
    /// The realtime start message sent once at startup.
    Start,
    NoteOn { note: u8, velocity: u8 },
    NoteOff { note: u8, velocity: u8 },
}

/// One raw wire message, as the midi crate lays it out.
#[derive(Clone, Copy, PartialEq, Eq, Structural, Debug)]
pub enum RawMsg {
    Raw(u8),
    Status(u8),
    StatusData(u8, u8),
    StatusDataData(u8, u8, u8),
}

/// The four bytes the output device takes.
#[derive(Clone, Copy, PartialEq, Eq, Structural, Debug)]
pub struct MidiMsg {
    pub status: u8,
    pub data1: u8,
    pub data2: u8,
    pub data3: u8,
}

/// The raw messages of each command: the start status byte alone, or a
/// status byte for channel 1 with the 7-bit-masked note and velocity.
pub open spec fn raw_of(m: OutMessage) -> Seq<RawMsg> {
    match m {
        OutMessage::Start => seq![RawMsg::Status(250)],
        OutMessage::NoteOn { note, velocity } => seq![
            RawMsg::StatusDataData(144, note & 0x7f, velocity & 0x7f),
        ],
        OutMessage::NoteOff { note, velocity } => seq![
            RawMsg::StatusDataData(128, note & 0x7f, velocity & 0x7f),
        ],
    }
}

/// Relies on midi's ToRawMessages::to_raw_messages: Start becomes the
/// single realtime status byte, and NoteOn/NoteOff on channel 1 each
/// become one status+data+data message holding the 7-bit-masked note
/// and velocity.
#[verifier::external_body]
fn to_raw_messages_of(message: &OutMessage) -> (raws: Vec<RawMsg>)
    ensures
        raws@ == raw_of(*message),
{
    let m = match *message {
        OutMessage::Start => midi::Message::Start,
        OutMessage::NoteOn { note, velocity } => midi::Message::NoteOn(midi::Ch1, note, velocity),
        OutMessage::NoteOff { note, velocity } => midi::Message::NoteOff(midi::Ch1, note, velocity),
    };
    midi::ToRawMessages::to_raw_messages(&m)
        .into_iter()
        .map(|rm| match rm {
            midi::RawMessage::Raw(s) => RawMsg::Raw(s),
            midi::RawMessage::Status(s) => RawMsg::Status(s),
            midi::RawMessage::StatusData(s, d1) => RawMsg::StatusData(s, d1),
            midi::RawMessage::StatusDataData(s, d1, d2) => RawMsg::StatusDataData(s, d1, d2),
        })
        .collect()
}

/// An all-zero message to fill the unused bytes from.
pub fn default_midi_message() -> (m: MidiMsg)
    ensures
        m == (MidiMsg { status: 0, data1: 0, data2: 0, data3: 0 }),
{
    MidiMsg { status: 0, data1: 0, data2: 0, data3: 0 }
}

/// The device message of each command.
pub open spec fn midi_msg_of(m: OutMessage) -> MidiMsg {
    match m {
        OutMessage::Start => MidiMsg { status: 250, data1: 0, data2: 0, data3: 0 },
        OutMessage::NoteOn { note, velocity } => MidiMsg {
            status: 144,
            data1: note & 0x7f,
            data2: velocity & 0x7f,
            data3: 0,
        },
        OutMessage::NoteOff { note, velocity } => MidiMsg {
            status: 128,
            data1: note & 0x7f,
            data2: velocity & 0x7f,
            data3: 0,
        },
    }
}

/// Flattens a command's raw messages (always exactly one here) into
/// the four-byte message the output device takes.
pub fn to_portmidi_message(message: OutMessage) -> (m: MidiMsg)
    ensures
        m == midi_msg_of(message),
{
    let raws = to_raw_messages_of(&message);
    proof {
        assert(raws@.len() == 1);
    }
    match raws[0] {
        RawMsg::Raw(status) => MidiMsg { status, ..default_midi_message() },
        RawMsg::Status(status) => MidiMsg { status, ..default_midi_message() },
        RawMsg::StatusData(status, data1) => MidiMsg {
            status,
            data1,
            ..default_midi_message()
        },
        RawMsg::StatusDataData(status, data1, data2) => MidiMsg {
            status,
            data1,
            data2,
            ..default_midi_message()
        },
    }
}

} // verus!
