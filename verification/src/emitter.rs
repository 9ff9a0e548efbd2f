use vstd::prelude::*;

use crate::geometry::Key;

verus! {

/// One PRESS (`press == true`) or RELEASE (`press == false`) edge for
/// the named key.
#[derive(Clone, PartialEq, Eq, Debug)]
pub struct Event {
    pub press: bool,
    pub name: String,
}

impl View for Event {
    type V = (bool, Seq<char>);

    open spec fn view(&self) -> (bool, Seq<char>) {
        (self.press, self.name@)
    }
}

/// The edges one key contributes to one evaluation step: a PRESS when
/// it goes down, a RELEASE when it comes up, nothing otherwise.
pub open spec fn edge_of(k: Key, now: bool) -> Seq<(bool, Seq<char>)> {
    if !k.is_pressed && now {
        seq![(true, k.name@)]
    } else if k.is_pressed && !now {
        seq![(false, k.name@)]
    } else {
        Seq::empty()
    }
}

/// The edges of the first `n` keys for one evaluation step, in
/// declaration order.
pub open spec fn step_events(keys: Seq<Key>, now: Seq<bool>, n: int) -> Seq<(bool, Seq<char>)>
    decreases n,
{
    if n <= 0 {
        Seq::empty()
    } else {
        step_events(keys, now, n - 1) + edge_of(keys[n - 1], now[n - 1])
    }
}

/// Diffs the per-key pressed state against the freshly derived one,
/// emits exactly one PRESS or RELEASE per key whose state changed (in
/// declaration order), and records the new state in the keys.
pub fn emit_edges(keys: &mut Vec<Key>, pressed: &Vec<bool>) -> (events: Vec<Event>)
    requires
        old(keys)@.len() == pressed@.len(),
    ensures
        final(keys)@.len() == old(keys)@.len(),
        forall|i: int|
            0 <= i < final(keys)@.len() ==> final(keys)@[i] == (Key {
                is_pressed: pressed@[i],
                ..old(keys)@[i]
            }),
        events@.map_values(|e: Event| e@) == step_events(
            old(keys)@,
            pressed@,
            old(keys)@.len() as int,
        ),
{
    let mut events: Vec<Event> = Vec::new();
    let mut j: usize = 0;
    while j < keys.len()
        invariant
            keys@.len() == old(keys)@.len(),
            old(keys)@.len() == pressed@.len(),
            j <= keys@.len(),
            forall|i: int|
                0 <= i < j ==> keys@[i] == (Key { is_pressed: pressed@[i], ..old(keys)@[i] }),
            forall|i: int| j <= i < keys@.len() ==> keys@[i] == old(keys)@[i],
            events@.map_values(|e: Event| e@) == step_events(old(keys)@, pressed@, j as int),
        decreases keys@.len() - j,
    {
        let k = keys[j];
        let now = pressed[j];
        let ghost prev_map = events@.map_values(|e: Event| e@);
        if !k.is_pressed && now {
            events.push(Event { press: true, name: k.name.to_owned() });
        } else if k.is_pressed && !now {
            events.push(Event { press: false, name: k.name.to_owned() });
        }
        proof {
            assert(events@.map_values(|e: Event| e@) =~= prev_map + edge_of(
                old(keys)@[j as int],
                pressed@[j as int],
            ));
        }
        keys.set(j, Key { is_pressed: now, ..k });
        j += 1;
    }
    events
}

/// An evaluation against an unchanged pressed set emits nothing.
pub proof fn lemma_no_change_no_events(keys: Seq<Key>, now: Seq<bool>, n: int)
    requires
        n <= keys.len(),
        n <= now.len(),
        forall|i: int| 0 <= i < n ==> now[i] == keys[i].is_pressed,
    ensures
        step_events(keys, now, n) =~= Seq::<(bool, Seq<char>)>::empty(),
    decreases n,
{
    if n > 0 {
        lemma_no_change_no_events(keys, now, n - 1);
    }
}

/// When exactly one key falls (it was pressed and is no longer) and
/// every other key keeps its state, the step emits exactly one RELEASE
/// carrying that key's name.
pub proof fn lemma_single_release(keys: Seq<Key>, now: Seq<bool>, n: int, k: int)
    requires
        0 <= k < n <= keys.len(),
        n <= now.len(),
        keys[k].is_pressed,
        !now[k],
        forall|i: int| 0 <= i < n && i != k ==> now[i] == keys[i].is_pressed,
    ensures
        step_events(keys, now, n) =~= seq![(false, keys[k].name@)],
    decreases n,
{
    if n - 1 == k {
        lemma_no_change_no_events(keys, now, n - 1);
    } else {
        lemma_single_release(keys, now, n - 1, k);
    }
}

/// When exactly one key rises and every other key keeps its state, the
/// step emits exactly one PRESS carrying that key's name.
pub proof fn lemma_single_press(keys: Seq<Key>, now: Seq<bool>, n: int, k: int)
    requires
        0 <= k < n <= keys.len(),
        n <= now.len(),
        !keys[k].is_pressed,
        now[k],
        forall|i: int| 0 <= i < n && i != k ==> now[i] == keys[i].is_pressed,
    ensures
        step_events(keys, now, n) =~= seq![(true, keys[k].name@)],
    decreases n,
{
    if n - 1 == k {
        lemma_no_change_no_events(keys, now, n - 1);
    } else {
        lemma_single_press(keys, now, n - 1, k);
    }
}

/// The edges one key contributes, as bare press flags: a PRESS when it
/// rises, a RELEASE when it falls.
pub open spec fn key_edge(was: bool, now: bool) -> Seq<bool> {
    if !was && now {
        seq![true]
    } else if was && !now {
        seq![false]
    } else {
        Seq::empty()
    }
}

/// The whole stream one key sees over a sequence of pressed flags,
/// starting from state `was`.
pub open spec fn key_stream(was: bool, steps: Seq<bool>) -> Seq<bool>
    decreases steps.len(),
{
    if steps.len() == 0 {
        Seq::empty()
    } else {
        key_edge(was, steps[0]) + key_stream(steps[0], steps.drop_first())
    }
}

/// Strict alternation of a press-flag stream relative to the current
/// state: a PRESS may only follow up, a RELEASE only down.
pub open spec fn alternates_from(evs: Seq<bool>, down: bool) -> bool
    decreases evs.len(),
{
    evs.len() == 0 || (evs[0] == !down && alternates_from(evs.drop_first(), evs[0]))
}

/// The stream a single key sees always alternates strictly from its
/// starting state.
pub proof fn lemma_key_stream_alternates(was: bool, steps: Seq<bool>)
    ensures
        alternates_from(key_stream(was, steps), was),
    decreases steps.len(),
{
    if steps.len() > 0 {
        lemma_key_stream_alternates(steps[0], steps.drop_first());
        let tail = key_stream(steps[0], steps.drop_first());
        let full = key_stream(was, steps);
        if was == steps[0] {
            assert(full =~= tail);
        } else {
            assert(full =~= seq![steps[0]] + tail);
            assert(full[0] == steps[0]);
            assert(full.drop_first() =~= tail);
        }
    }
}

/// The events that carry one key name, projected to their press flags.
pub open spec fn events_for(evs: Seq<(bool, Seq<char>)>, name: Seq<char>) -> Seq<bool>
    decreases evs.len(),
{
    if evs.len() == 0 {
        Seq::empty()
    } else {
        let rest = events_for(evs.drop_first(), name);
        if evs[0].1 == name {
            seq![evs[0].0] + rest
        } else {
            rest
        }
    }
}

proof fn lemma_events_for_add(a: Seq<(bool, Seq<char>)>, b: Seq<(bool, Seq<char>)>, name: Seq<char>)
    ensures
        events_for(a + b, name) == events_for(a, name) + events_for(b, name),
    decreases a.len(),
{
    if a.len() == 0 {
        assert(a + b =~= b);
        assert(events_for(a, name) + events_for(b, name) =~= events_for(b, name));
    } else {
        assert((a + b).drop_first() =~= a.drop_first() + b);
        assert((a + b)[0] == a[0]);
        lemma_events_for_add(a.drop_first(), b, name);
        if a[0].1 == name {
            assert(seq![a[0].0] + (events_for(a.drop_first(), name) + events_for(b, name)) =~= (
            seq![a[0].0] + events_for(a.drop_first(), name)) + events_for(b, name));
        }
    }
}

proof fn lemma_events_for_single(x: (bool, Seq<char>), name: Seq<char>)
    ensures
        events_for(seq![x], name) == if x.1 == name {
            seq![x.0]
        } else {
            Seq::<bool>::empty()
        },
{
    assert(seq![x].drop_first() =~= Seq::<(bool, Seq<char>)>::empty());
    assert(events_for(Seq::<(bool, Seq<char>)>::empty(), name) == Seq::<bool>::empty());
    assert(seq![x][0] == x);
    if x.1 == name {
        assert(seq![x.0] + Seq::<bool>::empty() =~= seq![x.0]);
    }
}

proof fn lemma_step_events_name_empty(keys: Seq<Key>, now: Seq<bool>, n: int, name: Seq<char>)
    requires
        n <= keys.len(),
        n <= now.len(),
        forall|i: int| 0 <= i < n ==> keys[i].name@ != name,
    ensures
        events_for(step_events(keys, now, n), name) == Seq::<bool>::empty(),
    decreases n,
{
    if n > 0 {
        lemma_step_events_name_empty(keys, now, n - 1, name);
        lemma_events_for_add(step_events(keys, now, n - 1), edge_of(keys[n - 1], now[n - 1]), name);
        let edge = edge_of(keys[n - 1], now[n - 1]);
        if edge.len() > 0 {
            assert(edge =~= seq![edge[0]]);
            lemma_events_for_single(edge[0], name);
        }
        assert(events_for(step_events(keys, now, n), name) =~= Seq::<bool>::empty());
    }
}

/// No two keys share a name.
pub open spec fn unique_names(keys: Seq<Key>) -> bool {
    forall|i: int, j: int| 0 <= i < j < keys.len() ==> keys[i].name@ != keys[j].name@
}

proof fn lemma_step_events_for(keys: Seq<Key>, now: Seq<bool>, n: int, k: int)
    requires
        0 <= k < n <= keys.len(),
        n <= now.len(),
        unique_names(keys),
    ensures
        events_for(step_events(keys, now, n), keys[k].name@) == key_edge(
            keys[k].is_pressed,
            now[k],
        ),
    decreases n,
{
    let name = keys[k].name@;
    lemma_events_for_add(step_events(keys, now, n - 1), edge_of(keys[n - 1], now[n - 1]), name);
    let edge = edge_of(keys[n - 1], now[n - 1]);
    if n - 1 == k {
        lemma_step_events_name_empty(keys, now, n - 1, name);
        if edge.len() > 0 {
            assert(edge =~= seq![edge[0]]);
            lemma_events_for_single(edge[0], name);
        }
        assert(events_for(step_events(keys, now, n), name) =~= key_edge(
            keys[k].is_pressed,
            now[k],
        ));
    } else {
        lemma_step_events_for(keys, now, n - 1, k);
        if edge.len() > 0 {
            assert(edge =~= seq![edge[0]]);
            lemma_events_for_single(edge[0], name);
        }
        assert(events_for(step_events(keys, now, n), name) =~= key_edge(
            keys[k].is_pressed,
            now[k],
        ));
    }
}

/// The keys after one evaluation step: same layout, pressed flags
/// replaced.
pub open spec fn set_pressed(keys: Seq<Key>, now: Seq<bool>) -> Seq<Key> {
    Seq::new(keys.len(), |i: int| Key { is_pressed: now[i], ..keys[i] })
}

/// Every event of a whole run of evaluation steps, each step diffing
/// against the state the one before left.
pub open spec fn run_events(keys: Seq<Key>, steps: Seq<Seq<bool>>) -> Seq<(bool, Seq<char>)>
    decreases steps.len(),
{
    if steps.len() == 0 {
        Seq::empty()
    } else {
        step_events(keys, steps[0], keys.len() as int) + run_events(
            set_pressed(keys, steps[0]),
            steps.drop_first(),
        )
    }
}

proof fn lemma_run_events_for(keys: Seq<Key>, steps: Seq<Seq<bool>>, k: int)
    requires
        unique_names(keys),
        forall|s: int| 0 <= s < steps.len() ==> (#[trigger] steps[s]).len() == keys.len(),
        0 <= k < keys.len(),
    ensures
        events_for(run_events(keys, steps), keys[k].name@) == key_stream(
            keys[k].is_pressed,
            steps.map_values(|st: Seq<bool>| st[k]),
        ),
    decreases steps.len(),
{
    let name = keys[k].name@;
    let col = steps.map_values(|st: Seq<bool>| st[k]);
    if steps.len() == 0 {
        assert(col.len() == 0);
    } else {
        let keys2 = set_pressed(keys, steps[0]);
        assert(keys2.len() == keys.len());
        assert(forall|i: int| 0 <= i < keys.len() ==> (#[trigger] keys2[i]).name@ == keys[i].name@);
        assert(unique_names(keys2));
        assert(forall|s: int|
            0 <= s < steps.drop_first().len() ==> (#[trigger] steps.drop_first()[s]).len()
                == keys2.len());
        lemma_run_events_for(keys2, steps.drop_first(), k);
        lemma_events_for_add(
            step_events(keys, steps[0], keys.len() as int),
            run_events(keys2, steps.drop_first()),
            name,
        );
        lemma_step_events_for(keys, steps[0], keys.len() as int, k);
        assert(col.drop_first() =~= steps.drop_first().map_values(|st: Seq<bool>| st[k]));
        assert(col[0] == steps[0][k]);
        assert(keys2[k].is_pressed == steps[0][k]);
        assert(events_for(run_events(keys, steps), name) == key_edge(keys[k].is_pressed, col[0])
            + key_stream(col[0], col.drop_first()));
    }
}

/// For every sequence of evaluation steps over a layout with unique
/// key names, the emitted PRESS/RELEASE stream of a key that starts
/// unpressed strictly alternates, starting with PRESS: never two
/// PRESSes in a row, and no RELEASE before the first PRESS.
pub proof fn lemma_press_release_alternation(keys: Seq<Key>, steps: Seq<Seq<bool>>, k: int)
    requires
        unique_names(keys),
        forall|s: int| 0 <= s < steps.len() ==> (#[trigger] steps[s]).len() == keys.len(),
        0 <= k < keys.len(),
        !keys[k].is_pressed,
    ensures
        alternates_from(events_for(run_events(keys, steps), keys[k].name@), false),
{
    lemma_run_events_for(keys, steps, k);
    lemma_key_stream_alternates(false, steps.map_values(|st: Seq<bool>| st[k]));
}

} // verus!
