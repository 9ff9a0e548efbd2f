use vstd::prelude::*;

use crate::emitter::Event;

verus! {

/// Relies on String::push_str: appends the characters of `other`.
pub assume_specification[ String::push_str ](s: &mut String, other: &str)
    ensures
        final(s)@ == old(s)@ + other@,
;

/// The wire prefix of a PRESS line, second token following.
pub open spec fn press_prefix() -> Seq<char> {
    "PRESS "@
}

/// The wire prefix of a RELEASE line, second token following.
pub open spec fn release_prefix() -> Seq<char> {
    "RELEASE "@
}

pub open spec fn starts_with_spec(s: Seq<char>, prefix: Seq<char>) -> bool {
    prefix.len() <= s.len() && s.subrange(0, prefix.len() as int) == prefix
}

/// The characters that separate tokens on a wire line.
pub open spec fn is_wire_whitespace(c: char) -> bool {
    c == ' ' || c == '\t' || c == '\r' || c == '\n'
}

/// The line with its trailing newline and carriage-return characters
/// stripped, as the wire contract asks before the key name is used.
pub open spec fn strip_crlf(s: Seq<char>) -> Seq<char>
    decreases s.len(),
{
    if s.len() > 0 && (s.last() == '\r' || s.last() == '\n') {
        strip_crlf(s.drop_last())
    } else {
        s
    }
}

/// The first index at or after `from` holding a non-whitespace
/// character, or the end of the line: where the next token starts.
pub open spec fn skip_ws(s: Seq<char>, from: int) -> int
    decreases s.len() - from,
{
    if from < 0 || from >= s.len() {
        s.len() as int
    } else if is_wire_whitespace(s[from]) {
        skip_ws(s, from + 1)
    } else {
        from
    }
}

/// The end of the token beginning at `from`: the first whitespace
/// character at or after `from`, or the end of the line.
pub open spec fn token_end(s: Seq<char>, from: int) -> int
    decreases s.len() - from,
{
    if from < 0 || from >= s.len() {
        s.len() as int
    } else if is_wire_whitespace(s[from]) {
        from
    } else {
        token_end(s, from + 1)
    }
}

/// One event as one text line: the PRESS or RELEASE prefix, then the
/// key name. The caller appends the terminating newline when writing.
pub open spec fn serialize_spec(e: (bool, Seq<char>)) -> Seq<char> {
    (if e.0 {
        press_prefix()
    } else {
        release_prefix()
    }) + e.1
}

/// The key name carried after a matched prefix: the second
/// whitespace-separated token of the stripped line.
pub open spec fn wire_name(t: Seq<char>, from: int) -> Seq<char> {
    t.subrange(skip_ws(t, from), token_end(t, skip_ws(t, from)))
}

/// What a received line means: `None` for a line that matches neither
/// prefix (that line is skipped, the stream goes on), otherwise the
/// event kind and the second whitespace-separated token as key name,
/// after any trailing newline/carriage-return characters are stripped.
pub open spec fn parse_spec(s: Seq<char>) -> Option<(bool, Seq<char>)> {
    let t = strip_crlf(s);
    if starts_with_spec(t, press_prefix()) {
        Some((true, wire_name(t, press_prefix().len() as int)))
    } else if starts_with_spec(t, release_prefix()) {
        Some((false, wire_name(t, release_prefix().len() as int)))
    } else {
        None
    }
}

pub fn starts_with_chk(s: &str, prefix: &str) -> (r: bool)
    ensures
        r == starts_with_spec(s@, prefix@),
{
    let n = prefix.unicode_len();
    if s.unicode_len() < n {
        return false;
    }
    let mut i: usize = 0;
    while i < n
        invariant
            i <= n,
            n == prefix@.len(),
            n <= s@.len(),
            forall|j: int| 0 <= j < i ==> s@[j] == prefix@[j],
        decreases n - i,
    {
        if s.get_char(i) != prefix.get_char(i) {
            proof {
                assert(s@.subrange(0, prefix@.len() as int)[i as int] != prefix@[i as int]);
            }
            return false;
        }
        i += 1;
    }
    proof {
        assert(s@.subrange(0, prefix@.len() as int) =~= prefix@);
    }
    true
}

/// Serializes one edge event to its wire line (without the newline).
pub fn serialize_event(e: &Event) -> (line: String)
    ensures
        line@ == serialize_spec(e@),
{
    let mut line: String = if e.press {
        "PRESS ".to_owned()
    } else {
        "RELEASE ".to_owned()
    };
    line.push_str(e.name.as_str());
    line
}

fn ws_at(s: &str, i: usize) -> (b: bool)
    requires
        i < s@.len(),
    ensures
        b == is_wire_whitespace(s@[i as int]),
{
    let c = s.get_char(i);
    c == ' ' || c == '\t' || c == '\r' || c == '\n'
}

fn crlf_at(s: &str, i: usize) -> (b: bool)
    requires
        i < s@.len(),
    ensures
        b == (s@[i as int] == '\r' || s@[i as int] == '\n'),
{
    let c = s.get_char(i);
    c == '\r' || c == '\n'
}

/// Parses one wire line back to an event; `None` for a line matching
/// neither prefix, which the caller reports and skips.
pub fn parse_event(line: &str) -> (parsed: Option<Event>)
    ensures
        match parsed {
            Some(e) => parse_spec(line@) == Some(e@),
            None => parse_spec(line@) is None,
        },
{
    let n = line.unicode_len();
    proof {
        assert(line@.subrange(0, n as int) =~= line@);
    }
    let mut m: usize = n;
    while m > 0 && crlf_at(line, m - 1)
        invariant
            m <= n,
            n == line@.len(),
            strip_crlf(line@) == strip_crlf(line@.subrange(0, m as int)),
        decreases m,
    {
        proof {
            let cur = line@.subrange(0, m as int);
            assert(cur.last() == line@[m - 1]);
            assert(cur.drop_last() =~= line@.subrange(0, m - 1));
        }
        m -= 1;
    }
    proof {
        assert(strip_crlf(line@.subrange(0, m as int)) == line@.subrange(0, m as int));
    }
    let trimmed = line.substring_char(0, m);
    let press: bool;
    let start: usize;
    if starts_with_chk(trimmed, "PRESS ") {
        proof {
            reveal_strlit("PRESS ");
        }
        press = true;
        start = 6;
    } else if starts_with_chk(trimmed, "RELEASE ") {
        proof {
            reveal_strlit("PRESS ");
            reveal_strlit("RELEASE ");
        }
        press = false;
        start = 8;
    } else {
        proof {
            reveal_strlit("PRESS ");
            reveal_strlit("RELEASE ");
        }
        return None;
    }
    let tl = trimmed.unicode_len();
    let mut a: usize = start;
    while a < tl && ws_at(trimmed, a)
        invariant
            start <= a <= tl,
            tl == trimmed@.len(),
            skip_ws(trimmed@, start as int) == skip_ws(trimmed@, a as int),
        decreases tl - a,
    {
        a += 1;
    }
    proof {
        assert(skip_ws(trimmed@, a as int) == a as int);
    }
    let mut end: usize = a;
    while end < tl && !ws_at(trimmed, end)
        invariant
            a <= end <= tl,
            tl == trimmed@.len(),
            token_end(trimmed@, a as int) == token_end(trimmed@, end as int),
        decreases tl - end,
    {
        end += 1;
    }
    proof {
        assert(token_end(trimmed@, end as int) == end as int);
    }
    let name = trimmed.substring_char(a, end);
    Some(Event { press, name: name.to_owned() })
}

/// When no whitespace lies at or after `from`, the token runs to the
/// end of the line.
proof fn lemma_token_end_no_break(s: Seq<char>, from: int)
    requires
        0 <= from,
        forall|j: int| from <= j < s.len() ==> !is_wire_whitespace(s[j]),
    ensures
        token_end(s, from) == s.len(),
    decreases s.len() - from,
{
    if from < s.len() {
        lemma_token_end_no_break(s, from + 1);
    }
}

/// Round trip: a serialized event parses back to the identical event
/// (kind and name), for every key name free of whitespace — a name
/// holding a space, tab or line break cannot survive a
/// whitespace-separated line format.
pub proof fn lemma_round_trip(e: (bool, Seq<char>))
    requires
        forall|i: int| 0 <= i < e.1.len() ==> !is_wire_whitespace(e.1[i]),
    ensures
        parse_spec(serialize_spec(e)) == Some(e),
{
    reveal_strlit("PRESS ");
    reveal_strlit("RELEASE ");
    let s = serialize_spec(e);
    let plen: int = if e.0 {
        press_prefix().len() as int
    } else {
        release_prefix().len() as int
    };
    assert(strip_crlf(s) == s) by {
        if e.1.len() > 0 {
            assert(s.last() == e.1.last());
        } else {
            assert(s =~= if e.0 {
                press_prefix()
            } else {
                release_prefix()
            });
            assert(s.last() == ' ');
        }
    }
    if e.0 {
        assert(s.subrange(0, plen) =~= press_prefix());
    } else {
        assert(!starts_with_spec(s, press_prefix())) by {
            if starts_with_spec(s, press_prefix()) {
                assert(s.subrange(0, press_prefix().len() as int)[0] == 'P');
                assert(s[0] == 'R');
            }
        }
        assert(s.subrange(0, plen) =~= release_prefix());
    }
    if e.1.len() > 0 {
        assert(!is_wire_whitespace(s[plen])) by {
            assert(s[plen] == e.1[0]);
        }
        assert(skip_ws(s, plen) == plen);
    } else {
        assert(plen == s.len());
        assert(skip_ws(s, plen) == plen);
    }
    assert(forall|j: int| plen <= j < s.len() ==> !is_wire_whitespace(s[j]));
    lemma_token_end_no_break(s, plen);
    assert(s.subrange(plen, token_end(s, plen)) =~= e.1);
}

} // verus!
