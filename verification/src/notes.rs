use vstd::prelude::*;

use crate::emitter::Event;
use crate::protocol::{parse_event, parse_spec};

verus! {

/// The startup configuration that the outside of the program hands the
/// translator side.
pub struct Opts {
    pub list_devices: bool,
    pub output_device: Option<String>,
    pub velocity: u8,
    pub initial_mode: u8,
    pub mode_offset: u8,
}

/// The translator's one piece of mutable state: the zero-based
/// transposition mode index.
#[derive(Clone, Copy, PartialEq, Eq, Structural, Debug)]
pub struct State {
    pub mode_index: u8,
}

impl State {
    /// The starting mode, converted from the one-based startup
    /// parameter to the internal zero-based index.
    pub fn initial(opts: &Opts) -> (s: State)
        requires
            opts.initial_mode >= 1,
        ensures
            s.mode_index == opts.initial_mode - 1,
    {
        State { mode_index: opts.initial_mode - 1 }
    }
}

/// The fixed vocabulary of playable key names, in physical
/// left-to-right order; the position in this sequence is the key's
/// semitone offset.
pub open spec fn vocab() -> Seq<Seq<char>> {
    seq![
        "w1"@,
        "b1"@,
        "w2"@,
        "b2"@,
        "w3"@,
        "w4"@,
        "b3"@,
        "w5"@,
        "b4"@,
        "w6"@,
        "b5"@,
        "w7"@,
        "w8"@,
        "b6"@,
        "w9"@,
        "b7"@,
        "w10"@,
        "w11"@,
        "b8"@,
        "w12"@,
        "b9"@,
        "w13"@,
        "b10"@,
        "w14"@,
        "w15"@,
    ]
}

pub open spec fn vocab_hit_from(name: Seq<char>, i: int) -> Option<int>
    decreases vocab().len() - i,
{
    if i < 0 || i >= vocab().len() {
        None
    } else if vocab()[i] == name {
        Some(i)
    } else {
        vocab_hit_from(name, i + 1)
    }
}

/// The position of a key name in the vocabulary (the first, were a
/// name ever repeated), or `None` for a name outside it.
pub open spec fn vocab_index(name: Seq<char>) -> Option<int> {
    vocab_hit_from(name, 0)
}

proof fn lemma_vocab_skip(name: Seq<char>, j: int)
    requires
        0 <= j <= vocab().len(),
        forall|k: int| 0 <= k < j ==> vocab()[k] != name,
    ensures
        vocab_index(name) == vocab_hit_from(name, j),
    decreases j,
{
    if j > 0 {
        lemma_vocab_skip(name, j - 1);
    }
}

/// Character-by-character string comparison.
fn str_eq_chk(a: &str, b: &str) -> (r: bool)
    ensures
        r == (a@ == b@),
{
    let n = a.unicode_len();
    if b.unicode_len() != n {
        return false;
    }
    let mut i: usize = 0;
    while i < n
        invariant
            i <= n,
            n == a@.len(),
            n == b@.len(),
            forall|j: int| 0 <= j < i ==> a@[j] == b@[j],
        decreases n - i,
    {
        if a.get_char(i) != b.get_char(i) {
            return false;
        }
        i += 1;
    }
    proof {
        assert(a@ =~= b@);
    }
    true
}

fn vocab_lookup(key_name: &str) -> (slot: Option<usize>)
    ensures
        match slot {
            Some(j) => j < vocab().len() && vocab_index(key_name@) == Some(j as int),
            None => vocab_index(key_name@) is None,
        },
{
    let keys: Vec<&'static str> = vec![
        "w1", "b1", "w2", "b2", "w3", "w4", "b3", "w5", "b4", "w6", "b5", "w7",
        "w8", "b6", "w9", "b7", "w10", "w11", "b8", "w12", "b9", "w13", "b10", "w14", "w15",
    ];
    proof {
        assert(keys@[0]@ == vocab()[0]);
        assert(keys@[1]@ == vocab()[1]);
        assert(keys@[2]@ == vocab()[2]);
        assert(keys@[3]@ == vocab()[3]);
        assert(keys@[4]@ == vocab()[4]);
        assert(keys@[5]@ == vocab()[5]);
        assert(keys@[6]@ == vocab()[6]);
        assert(keys@[7]@ == vocab()[7]);
        assert(keys@[8]@ == vocab()[8]);
        assert(keys@[9]@ == vocab()[9]);
        assert(keys@[10]@ == vocab()[10]);
        assert(keys@[11]@ == vocab()[11]);
        assert(keys@[12]@ == vocab()[12]);
        assert(keys@[13]@ == vocab()[13]);
        assert(keys@[14]@ == vocab()[14]);
        assert(keys@[15]@ == vocab()[15]);
        assert(keys@[16]@ == vocab()[16]);
        assert(keys@[17]@ == vocab()[17]);
        assert(keys@[18]@ == vocab()[18]);
        assert(keys@[19]@ == vocab()[19]);
        assert(keys@[20]@ == vocab()[20]);
        assert(keys@[21]@ == vocab()[21]);
        assert(keys@[22]@ == vocab()[22]);
        assert(keys@[23]@ == vocab()[23]);
        assert(keys@[24]@ == vocab()[24]);
    }
    let mut j: usize = 0;
    while j < keys.len()
        invariant
            j <= keys@.len(),
            keys@.len() == vocab().len(),
            forall|k: int| 0 <= k < vocab().len() ==> keys@[k]@ == vocab()[k],
            forall|k: int| 0 <= k < j ==> vocab()[k] != key_name@,
        decreases keys@.len() - j,
    {
        if str_eq_chk(key_name, keys[j]) {
            proof {
                lemma_vocab_skip(key_name@, j as int);
            }
            return Some(j);
        }
        j += 1;
    }
    proof {
        lemma_vocab_skip(key_name@, vocab().len() as int);
    }
    None
}

/// The text of the unknown-key error.
pub open spec fn unknown_key_message(name: Seq<char>) -> Seq<char> {
    "Unknown key_name: "@ + name
}

/// Maps a key name under a mode to its instrument note number:
/// `(mode_index + mode_offset) * 12` plus the name's position in the
/// fixed vocabulary. A name outside the vocabulary is an explicit
/// error, never a fallback note.
pub fn to_note_key(mode_index: u8, opts: &Opts, key_name: &str) -> (res: Result<u8, String>)
    requires
        mode_index + opts.mode_offset <= 19,
    ensures
        match res {
            Ok(note) => vocab_index(key_name@) matches Some(slot) && note == (mode_index
                + opts.mode_offset) * 12 + slot,
            Err(msg) => vocab_index(key_name@) is None && msg@ == unknown_key_message(key_name@),
        },
{
    match vocab_lookup(key_name) {
        Some(slot) => Ok((mode_index + opts.mode_offset) * 12 + (slot as u8)),
        None => {
            let mut msg: String = "Unknown key_name: ".to_owned();
            msg.push_str(key_name);
            Err(msg)
        },
    }
}

/// A digit character, by code point.
pub open spec fn is_digit(c: char) -> bool {
    48 <= c as u32 <= 57
}

pub open spec fn digit_val(c: char) -> int {
    c as u32 - 48
}

pub open spec fn all_digits(s: Seq<char>) -> bool {
    forall|i: int| 0 <= i < s.len() ==> is_digit(s[i])
}

/// The number a digit string denotes, most significant digit first.
pub open spec fn digits_val(s: Seq<char>) -> int
    decreases s.len(),
{
    if s.len() <= 0 {
        0
    } else {
        digits_val(s.drop_last()) * 10 + digit_val(s.last())
    }
}

/// A mode-selector key name: the fixed prefix letter followed by the
/// mode number.
pub open spec fn is_mode_name(name: Seq<char>) -> bool {
    name.len() >= 1 && name[0] == 'm'
}

pub open spec fn mode_suffix(name: Seq<char>) -> Seq<char> {
    name.subrange(1, name.len() as int)
}

/// The suffix denotes a mode request: at least one character, all
/// digits, and a value the request integer type can carry.
pub open spec fn mode_parses(suffix: Seq<char>) -> bool {
    suffix.len() >= 1 && all_digits(suffix) && digits_val(suffix) <= 2147483647
}

/// Reads the numeric suffix of a mode-selector key name; `None` when
/// it is empty, not all digits, or too large to parse.
fn mode_value(name: &str) -> (v: Option<i32>)
    requires
        is_mode_name(name@),
    ensures
        match v {
            Some(x) => mode_parses(mode_suffix(name@)) && x == digits_val(mode_suffix(name@)),
            None => !mode_parses(mode_suffix(name@)),
        },
{
    let n = name.unicode_len();
    if n == 1 {
        proof {
            assert(mode_suffix(name@).len() == 0);
        }
        return None;
    }
    let mut val: u64 = 0;
    let mut big = false;
    let mut i: usize = 1;
    while i < n
        invariant
            1 <= i <= n,
            n == name@.len(),
            forall|j: int| 1 <= j < i ==> is_digit(name@[j]),
            big ==> digits_val(name@.subrange(1, i as int)) > 2147483647,
            !big ==> val == digits_val(name@.subrange(1, i as int)) && val <= 2147483647,
        decreases n - i,
    {
        let c = name.get_char(i);
        let cu: u32 = c as u32;
        if cu < 48 || cu > 57 {
            proof {
                assert(!is_digit(name@[i as int]));
                assert(mode_suffix(name@)[i - 1] == name@[i as int]);
            }
            return None;
        }
        proof {
            assert(name@.subrange(1, i + 1 as int).drop_last() =~= name@.subrange(1, i as int));
            assert(name@.subrange(1, i + 1 as int).last() == name@[i as int]);
        }
        let d: u64 = (cu - 48) as u64;
        if big {
        } else {
            let nv: u64 = val * 10 + d;
            if nv > 2147483647 {
                big = true;
            } else {
                val = nv;
            }
        }
        i += 1;
    }
    proof {
        assert(name@.subrange(1, n as int) =~= mode_suffix(name@));
        assert forall|j: int| 0 <= j < mode_suffix(name@).len() implies is_digit(
            mode_suffix(name@)[j],
        ) by {
            assert(mode_suffix(name@)[j] == name@[j + 1]);
        }
    }
    if big {
        None
    } else {
        Some(val as i32)
    }
}

/// Everything `handle_input` does, as a function of the old mode, the
/// configuration, and the line: the action taken and the mode
/// afterwards.
pub open spec fn handle_spec(old_mode: u8, mode_offset: u8, velocity: u8, line: Seq<char>) -> (
    Action,
    u8,
) {
    match parse_spec(line) {
        None => (Action::InvalidLine, old_mode),
        Some(e) => {
            let name = e.1;
            if is_mode_name(name) {
                if !e.0 {
                    (Action::ModeKeyIgnored, old_mode)
                } else if !mode_parses(mode_suffix(name)) {
                    (Action::ModeUnparseable, old_mode)
                } else if digits_val(mode_suffix(name)) < 1 || digits_val(mode_suffix(name)) > 8 {
                    (Action::ModeOutOfRange { requested: digits_val(mode_suffix(name)) as i32 }, old_mode)
                } else {
                    (
                        Action::ModeChanged {
                            mode_index: (digits_val(mode_suffix(name)) - 1) as u8,
                        },
                        (digits_val(mode_suffix(name)) - 1) as u8,
                    )
                }
            } else {
                match vocab_index(name) {
                    Some(slot) => (
                        Action::Play {
                            on: e.0,
                            note: ((old_mode + mode_offset) * 12 + slot) as u8,
                            velocity,
                        },
                        old_mode,
                    ),
                    None => (Action::UnknownKey, old_mode),
                }
            }
        },
    }
}

/// What one input line makes the translator side do.
#[derive(Clone, Copy, PartialEq, Eq, Structural, Debug)]
pub enum Action {
    /// The line matches neither prefix: report it and go on.
    InvalidLine,
    /// A valid mode selection; the new zero-based mode index.
    ModeChanged { mode_index: u8 },
    /// A mode-selector press whose suffix is not a parseable number.
    ModeUnparseable,
    /// A mode-selector press outside the valid domain; mode unchanged.
    ModeOutOfRange { requested: i32 },
    /// A mode-selector release: explicitly ignored.
    ModeKeyIgnored,
    /// Send a note-on (`on`) or note-off for this note.
    Play { on: bool, note: u8, velocity: u8 },
    /// A playable-key event whose name is outside the vocabulary.
    UnknownKey,
}

/// Consumes one protocol line: a mode-selector press may change the
/// mode, every other valid event translates to a note command or an
/// explicit error; nothing else changes the mode.
pub fn handle_input(state: &mut State, opts: &Opts, input_line: &str) -> (act: Action)
    requires
        old(state).mode_index + opts.mode_offset <= 19,
    ensures
        act == handle_spec(
            old(state).mode_index,
            opts.mode_offset,
            opts.velocity,
            input_line@,
        ).0,
        final(state).mode_index == handle_spec(
            old(state).mode_index,
            opts.mode_offset,
            opts.velocity,
            input_line@,
        ).1,
{
    let parsed: Option<Event> = parse_event(input_line);
    let e = match parsed {
        None => {
            return Action::InvalidLine;
        },
        Some(e) => e,
    };
    let name = e.name.as_str();
    let is_mode = name.unicode_len() >= 1 && name.get_char(0) == 'm';
    if is_mode && e.press {
        match mode_value(name) {
            None => Action::ModeUnparseable,
            Some(v) => {
                if v < 1 || v > 8 {
                    Action::ModeOutOfRange { requested: v }
                } else {
                    state.mode_index = (v - 1) as u8;
                    Action::ModeChanged { mode_index: state.mode_index }
                }
            },
        }
    } else if is_mode {
        Action::ModeKeyIgnored
    } else {
        match to_note_key(state.mode_index, opts, name) {
            Ok(note) => Action::Play { on: e.press, note, velocity: opts.velocity },
            Err(_) => Action::UnknownKey,
        }
    }
}

} // verus!

