use vstd::prelude::*;

use crate::geometry::{rect_contains, rect_contains_spec, Key, TouchPos};

verus! {

/// Contact `p` hits the key at index `i`.
pub open spec fn key_hit(keys: Seq<Key>, i: int, p: TouchPos) -> bool {
    rect_contains_spec(keys[i].bounds, p.x as int, p.y as int)
}

/// The first index at or after `i` whose key is hit by `p`; when
/// `black_only` is set, only black keys count.
pub open spec fn first_hit_from(keys: Seq<Key>, p: TouchPos, i: int, black_only: bool) -> Option<
    int,
>
    decreases keys.len() - i,
{
    if i < 0 || i >= keys.len() {
        None
    } else if key_hit(keys, i, p) && (!black_only || keys[i].is_black) {
        Some(i)
    } else {
        first_hit_from(keys, p, i + 1, black_only)
    }
}

/// The key a contact resolves to: among all keys it hits, a black key
/// beats every white key, and within the same blackness the first in
/// declaration order wins. `None` when the contact hits no key.
pub open spec fn resolved_key_index(keys: Seq<Key>, p: TouchPos) -> Option<int> {
    match first_hit_from(keys, p, 0, true) {
        Some(i) => Some(i),
        None => first_hit_from(keys, p, 0, false),
    }
}

/// `first_hit_from` finds exactly the first matching index.
proof fn lemma_first_hit_charac(keys: Seq<Key>, p: TouchPos, i: int, black_only: bool)
    requires
        0 <= i <= keys.len(),
    ensures
        first_hit_from(keys, p, i, black_only) matches Some(j) ==> i <= j < keys.len() && key_hit(
            keys,
            j,
            p,
        ) && (!black_only || keys[j].is_black) && (forall|k: int|
            i <= k < j ==> !(key_hit(keys, k, p) && (!black_only || keys[k].is_black))),
        first_hit_from(keys, p, i, black_only) is None ==> (forall|k: int|
            i <= k < keys.len() ==> !(key_hit(keys, k, p) && (!black_only || keys[k].is_black))),
    decreases keys.len() - i,
{
    if i < keys.len() {
        if !(key_hit(keys, i, p) && (!black_only || keys[i].is_black)) {
            lemma_first_hit_charac(keys, p, i + 1, black_only);
        }
    }
}

/// The converse: an index that matches and is preceded by no match is
/// what `first_hit_from` returns.
proof fn lemma_first_hit_exists(keys: Seq<Key>, p: TouchPos, i: int, black_only: bool, j: int)
    requires
        0 <= i <= j < keys.len(),
        key_hit(keys, j, p),
        !black_only || keys[j].is_black,
    ensures
        first_hit_from(keys, p, i, black_only) matches Some(r) && r <= j,
    decreases j - i,
{
    if !(key_hit(keys, i, p) && (!black_only || keys[i].is_black)) {
        lemma_first_hit_exists(keys, p, i + 1, black_only, j);
    }
}

/// A contact lying inside both a black key and any overlapping white
/// key always resolves to a black key: whenever some hit key is black,
/// the resolved key is black.
pub proof fn lemma_black_over_white(keys: Seq<Key>, p: TouchPos, b: int)
    requires
        0 <= b < keys.len(),
        key_hit(keys, b, p),
        keys[b].is_black,
    ensures
        resolved_key_index(keys, p) matches Some(i) && keys[i].is_black,
{
    lemma_first_hit_exists(keys, p, 0, true, b);
    lemma_first_hit_charac(keys, p, 0, true);
}

/// Resolves one contact to the index of the key it is considered to
/// touch, applying the black-over-white tie-break.
pub fn key_index_at(pos: TouchPos, keys: &[Key]) -> (found: Option<usize>)
    ensures
        match found {
            Some(i) => i < keys@.len() && resolved_key_index(keys@, pos) == Some(i as int),
            None => resolved_key_index(keys@, pos) is None,
        },
{
    let mut found: Option<usize> = None;
    let mut j: usize = 0;
    while j < keys.len()
        invariant
            j <= keys@.len(),
            match found {
                Some(k) => {
                    &&& k < j
                    &&& key_hit(keys@, k as int, pos)
                    &&& (keys@[k as int].is_black ==> forall|i: int|
                        0 <= i < k ==> !(key_hit(keys@, i, pos) && keys@[i].is_black))
                    &&& (!keys@[k as int].is_black ==> (forall|i: int|
                        0 <= i < j ==> !(key_hit(keys@, i, pos) && keys@[i].is_black)) && (forall|
                        i: int,
                    |
                        0 <= i < k ==> !key_hit(keys@, i, pos)))
                },
                None => forall|i: int| 0 <= i < j ==> !key_hit(keys@, i, pos),
            },
        decreases keys@.len() - j,
    {
        if rect_contains(&keys[j].bounds, pos) {
            match found {
                Some(k) => {
                    if keys[j].is_black && !keys[k].is_black {
                        found = Some(j);
                    }
                },
                None => {
                    found = Some(j);
                },
            }
        }
        j += 1;
    }
    proof {
        lemma_first_hit_charac(keys@, pos, 0, true);
        lemma_first_hit_charac(keys@, pos, 0, false);
        match found {
            Some(k) => {
                if keys@[k as int].is_black {
                    lemma_first_hit_exists(keys@, pos, 0, true, k as int);
                } else {
                    lemma_first_hit_exists(keys@, pos, 0, false, k as int);
                }
            },
            None => {},
        }
    }
    found
}

/// Resolves one contact to the key it is considered to touch, with the
/// black-over-white tie-break; `None` when it touches no key.
pub fn key_at<'a>(pos: TouchPos, keys: &'a [Key]) -> (found: Option<&'a Key>)
    ensures
        match found {
            Some(k) => resolved_key_index(keys@, pos) matches Some(i) && *k == keys@[i],
            None => resolved_key_index(keys@, pos) is None,
        },
{
    match key_index_at(pos, keys) {
        Some(i) => Some(&keys[i]),
        None => None,
    }
}

/// Two layouts agree on everything resolution looks at: rectangle and
/// blackness, position by position.
pub open spec fn same_geometry(a: Seq<Key>, b: Seq<Key>) -> bool {
    &&& a.len() == b.len()
    &&& forall|i: int|
        0 <= i < a.len() ==> a[i].bounds == b[i].bounds && a[i].is_black == b[i].is_black
}

proof fn lemma_first_hit_same_geometry(
    a: Seq<Key>,
    b: Seq<Key>,
    p: TouchPos,
    i: int,
    black_only: bool,
)
    requires
        same_geometry(a, b),
        0 <= i,
    ensures
        first_hit_from(a, p, i, black_only) == first_hit_from(b, p, i, black_only),
    decreases a.len() - i,
{
    if i < a.len() {
        lemma_first_hit_same_geometry(a, b, p, i + 1, black_only);
    }
}

/// Resolution does not read the per-key pressed state: layouts with the
/// same rectangles and blackness resolve every contact alike.
pub proof fn lemma_resolved_same_geometry(a: Seq<Key>, b: Seq<Key>)
    requires
        same_geometry(a, b),
    ensures
        forall|p: TouchPos| resolved_key_index(a, p) == resolved_key_index(b, p),
{
    assert forall|p: TouchPos| resolved_key_index(a, p) == resolved_key_index(b, p) by {
        lemma_first_hit_same_geometry(a, b, p, 0, true);
        lemma_first_hit_same_geometry(a, b, p, 0, false);
    }
}

/// Key `i` is pressed: some contact in the sequence resolves to it.
pub open spec fn key_pressed_by(keys: Seq<Key>, contacts: Seq<TouchPos>, i: int) -> bool {
    exists|c: int| 0 <= c < contacts.len() && resolved_key_index(keys, contacts[c]) == Some(i)
}

/// Derives, per key, whether at least one of the given contacts
/// resolves to it. Two contacts on the same key count once.
pub fn pressed_flags(keys: &[Key], contacts: &Vec<TouchPos>) -> (flags: Vec<bool>)
    ensures
        flags@.len() == keys@.len(),
        forall|i: int|
            0 <= i < keys@.len() ==> flags@[i] == key_pressed_by(keys@, contacts@, i),
{
    let mut flags: Vec<bool> = Vec::new();
    let mut j: usize = 0;
    while j < keys.len()
        invariant
            j <= keys@.len(),
            flags@.len() == j,
            forall|i: int| 0 <= i < j ==> !flags@[i],
        decreases keys@.len() - j,
    {
        flags.push(false);
        j += 1;
    }
    proof {
        assert(contacts@.take(0) =~= Seq::<TouchPos>::empty());
    }
    let mut c: usize = 0;
    while c < contacts.len()
        invariant
            c <= contacts@.len(),
            flags@.len() == keys@.len(),
            forall|i: int|
                0 <= i < keys@.len() ==> flags@[i] == key_pressed_by(
                    keys@,
                    contacts@.take(c as int),
                    i,
                ),
        decreases contacts@.len() - c,
    {
        let ghost prev = contacts@.take(c as int);
        let ghost cur = contacts@.take(c as int + 1);
        let idx = key_index_at(contacts[c], keys);
        let ghost flags0 = flags@;
        match idx {
            Some(i) => {
                flags.set(i, true);
            },
            None => {},
        }
        proof {
            let r = resolved_key_index(keys@, contacts@[c as int]);
            assert forall|i: int| 0 <= i < keys@.len() implies flags@[i] == key_pressed_by(
                keys@,
                cur,
                i,
            ) by {
                assert(flags@[i] == (flags0[i] || r == Some(i)));
                if key_pressed_by(keys@, cur, i) {
                    let w = choose|w: int|
                        0 <= w < cur.len() && resolved_key_index(keys@, cur[w]) == Some(i);
                    if w < c as int {
                        assert(prev[w] == cur[w]);
                        assert(key_pressed_by(keys@, prev, i));
                    } else {
                        assert(cur[w] == contacts@[c as int]);
                    }
                }
                if flags0[i] {
                    let w = choose|w: int|
                        0 <= w < prev.len() && resolved_key_index(keys@, prev[w]) == Some(i);
                    assert(cur[w] == prev[w]);
                    assert(key_pressed_by(keys@, cur, i));
                }
                if r == Some(i) {
                    assert(cur[c as int] == contacts@[c as int]);
                    assert(key_pressed_by(keys@, cur, i));
                }
            }
        }
        c += 1;
    }
    proof {
        assert(contacts@.take(contacts@.len() as int) =~= contacts@);
    }
    flags
}

} // verus!
