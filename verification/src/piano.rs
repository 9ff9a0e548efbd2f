use vstd::prelude::*;

use crate::emitter::{emit_edges, step_events, Event};
use crate::emitter::lemma_no_change_no_events;
use crate::geometry::{Key, TouchPos};
use crate::resolver::{
    key_pressed_by, lemma_resolved_same_geometry, pressed_flags, resolved_key_index, same_geometry,
};
use crate::tracker::{contacts_of, ContactMap};

verus! {

/// Key `i` is down: some position in the set resolves to it.
pub open spec fn key_down(keys: Seq<Key>, ps: Set<TouchPos>, i: int) -> bool {
    exists|p: TouchPos| ps.contains(p) && resolved_key_index(keys, p) == Some(i)
}

/// The pressed flag of every key against a set of contact positions.
pub open spec fn pressed_of(keys: Seq<Key>, ps: Set<TouchPos>) -> Seq<bool> {
    Seq::new(keys.len(), |i: int| key_down(keys, ps, i))
}

/// The input-side pipeline: the fixed key layout (whose per-key
/// `is_pressed` flags are the edge emitter's state) and the set of
/// active contacts. Each contact change runs one full evaluation step:
/// snapshot the contacts, resolve them to keys, diff against the
/// per-key state, and emit the edges.
pub struct Piano {
    pub keys: Vec<Key>,
    pub contacts: ContactMap,
}

impl Piano {
    /// The active contacts, by tracking id.
    pub open spec fn contacts(self) -> Map<i32, TouchPos> {
        contacts_of(self.contacts)
    }

    /// The per-key pressed flags agree with what the active contacts
    /// resolve to. Every operation preserves this.
    pub open spec fn wf(self) -> bool {
        forall|i: int|
            0 <= i < self.keys@.len() ==> self.keys@[i].is_pressed == key_down(
                self.keys@,
                self.contacts().values(),
                i,
            )
    }

    /// Starts with a layout whose keys are all up and no contacts.
    pub fn new(keys: Vec<Key>) -> (piano: Piano)
        requires
            forall|i: int| 0 <= i < keys@.len() ==> !keys@[i].is_pressed,
        ensures
            piano.keys@ == keys@,
            piano.contacts() == Map::<i32, TouchPos>::empty(),
            piano.wf(),
    {
        let piano = Piano { keys, contacts: ContactMap::new() };
        proof {
            assert forall|i: int| 0 <= i < piano.keys@.len() implies piano.keys@[i].is_pressed
                == key_down(piano.keys@, piano.contacts().values(), i) by {
                assert(forall|p: TouchPos| !piano.contacts().values().contains(p));
            }
        }
        piano
    }

    /// One evaluation step against the current contacts: derive the
    /// pressed set, diff, record, emit.
    fn evaluate(&mut self) -> (events: Vec<Event>)
        ensures
            final(self).contacts() == old(self).contacts(),
            final(self).keys@.len() == old(self).keys@.len(),
            forall|i: int|
                0 <= i < final(self).keys@.len() ==> final(self).keys@[i] == (Key {
                    is_pressed: pressed_of(
                        old(self).keys@,
                        old(self).contacts().values(),
                    )[i],
                    ..old(self).keys@[i]
                }),
            events@.map_values(|e: Event| e@) == step_events(
                old(self).keys@,
                pressed_of(old(self).keys@, old(self).contacts().values()),
                old(self).keys@.len() as int,
            ),
            final(self).wf(),
    {
        let snapshot = self.contacts.positions();
        let flags = pressed_flags(self.keys.as_slice(), &snapshot);
        proof {
            let vs = self.contacts().values();
            assert forall|i: int| 0 <= i < self.keys@.len() implies flags@[i] == key_down(
                self.keys@,
                vs,
                i,
            ) by {
                if key_pressed_by(self.keys@, snapshot@, i) {
                    let c = choose|c: int|
                        0 <= c < snapshot@.len() && resolved_key_index(self.keys@, snapshot@[c])
                            == Some(i);
                    assert(snapshot@.to_set().contains(snapshot@[c]));
                }
                if key_down(self.keys@, vs, i) {
                    let p = choose|p: TouchPos|
                        vs.contains(p) && resolved_key_index(self.keys@, p) == Some(i);
                    assert(snapshot@.to_set().contains(p));
                    let c = choose|c: int| 0 <= c < snapshot@.len() && snapshot@[c] == p;
                    assert(key_pressed_by(self.keys@, snapshot@, i));
                }
            }
            assert(flags@ =~= pressed_of(self.keys@, vs));
        }
        let ghost keys_before = self.keys@;
        let events = emit_edges(&mut self.keys, &flags);
        proof {
            assert(same_geometry(keys_before, self.keys@));
            lemma_resolved_same_geometry(keys_before, self.keys@);
            assert forall|i: int| 0 <= i < self.keys@.len() implies self.keys@[i].is_pressed
                == key_down(self.keys@, self.contacts().values(), i) by {
                assert(key_down(self.keys@, self.contacts().values(), i) == key_down(
                    keys_before,
                    self.contacts().values(),
                    i,
                ));
            }
        }
        events
    }

    /// A contact went down or moved: upsert its position, then run one
    /// evaluation step against the new contact set.
    pub fn on_contact_update(&mut self, id: i32, pos: TouchPos) -> (events: Vec<Event>)
        ensures
            final(self).contacts() == old(self).contacts().insert(id, pos),
            final(self).keys@.len() == old(self).keys@.len(),
            forall|i: int|
                0 <= i < final(self).keys@.len() ==> final(self).keys@[i] == (Key {
                    is_pressed: pressed_of(
                        old(self).keys@,
                        final(self).contacts().values(),
                    )[i],
                    ..old(self).keys@[i]
                }),
            events@.map_values(|e: Event| e@) == step_events(
                old(self).keys@,
                pressed_of(old(self).keys@, final(self).contacts().values()),
                old(self).keys@.len() as int,
            ),
            final(self).wf(),
    {
        self.contacts.upsert(id, pos);
        self.evaluate()
    }

    /// A contact lifted: remove it (a no-op when the id is already
    /// absent), then run one evaluation step. When the pipeline was
    /// consistent and the id absent, nothing is emitted: a redundant
    /// lift-off is not an error and makes no events.
    pub fn on_contact_end(&mut self, id: i32) -> (events: Vec<Event>)
        ensures
            final(self).contacts() == old(self).contacts().remove(id),
            final(self).keys@.len() == old(self).keys@.len(),
            forall|i: int|
                0 <= i < final(self).keys@.len() ==> final(self).keys@[i] == (Key {
                    is_pressed: pressed_of(
                        old(self).keys@,
                        final(self).contacts().values(),
                    )[i],
                    ..old(self).keys@[i]
                }),
            events@.map_values(|e: Event| e@) == step_events(
                old(self).keys@,
                pressed_of(old(self).keys@, final(self).contacts().values()),
                old(self).keys@.len() as int,
            ),
            final(self).wf(),
            old(self).wf() && !old(self).contacts().dom().contains(id) ==> events@ =~= Seq::<
                Event,
            >::empty(),
    {
        self.contacts.remove(id);
        let events = self.evaluate();
        proof {
            if old(self).wf() && !old(self).contacts().dom().contains(id) {
                assert(old(self).contacts().remove(id) =~= old(self).contacts());
                let flags = pressed_of(old(self).keys@, self.contacts().values());
                assert(forall|i: int|
                    0 <= i < old(self).keys@.len() ==> flags[i] == old(
                        self,
                    ).keys@[i].is_pressed);
                lemma_no_change_no_events(
                    old(self).keys@,
                    flags,
                    old(self).keys@.len() as int,
                );
                assert(events@.map_values(|e: Event| e@).len() == 0);
            }
        }
        events
    }
}

/// Moving a contact within the same key region emits no new events:
/// when the pipeline is consistent and the moved contact's new
/// position resolves to the same key as its old one (or both to
/// none), the evaluation step after the move emits nothing.
pub proof fn lemma_move_within_key_emits_nothing(
    keys: Seq<Key>,
    m: Map<i32, TouchPos>,
    id: i32,
    p2: TouchPos,
)
    requires
        forall|i: int| 0 <= i < keys.len() ==> keys[i].is_pressed == key_down(keys, m.values(), i),
        m.dom().contains(id),
        resolved_key_index(keys, m[id]) == resolved_key_index(keys, p2),
    ensures
        step_events(keys, pressed_of(keys, m.insert(id, p2).values()), keys.len() as int) =~= Seq::<
            (bool, Seq<char>),
        >::empty(),
{
    let vs0 = m.values();
    let vs1 = m.insert(id, p2).values();
    assert forall|i: int| 0 <= i < keys.len() implies key_down(keys, vs1, i) == key_down(
        keys,
        vs0,
        i,
    ) by {
        if key_down(keys, vs1, i) {
            let q = choose|q: TouchPos|
                vs1.contains(q) && resolved_key_index(keys, q) == Some(i);
            let j = choose|j: i32| m.insert(id, p2).dom().contains(j) && m.insert(id, p2)[j] == q;
            if j == id {
                assert(q == p2);
                assert(resolved_key_index(keys, m[id]) == Some(i));
                assert(vs0.contains(m[id]));
            } else {
                assert(m.dom().contains(j) && m[j] == q);
                assert(vs0.contains(q));
            }
            assert(key_down(keys, vs0, i));
        }
        if key_down(keys, vs0, i) {
            let q = choose|q: TouchPos|
                vs0.contains(q) && resolved_key_index(keys, q) == Some(i);
            let j = choose|j: i32| m.dom().contains(j) && m[j] == q;
            if j == id {
                assert(q == m[id]);
                assert(resolved_key_index(keys, p2) == Some(i));
                assert(m.insert(id, p2).dom().contains(id) && m.insert(id, p2)[id] == p2);
                assert(vs1.contains(p2));
            } else {
                assert(m.insert(id, p2).dom().contains(j) && m.insert(id, p2)[j] == q);
                assert(vs1.contains(q));
            }
            assert(key_down(keys, vs1, i));
        }
    }
    lemma_no_change_no_events(keys, pressed_of(keys, vs1), keys.len() as int);
}

/// Removing the one contact whose key is `k` emits exactly one RELEASE
/// of that key's name: when the pipeline is consistent, `id` is held at
/// a position resolving to key `k`, and no other contact resolves to
/// `k`, the evaluation step after removing `id` emits that single
/// RELEASE.
pub proof fn lemma_removal_releases_key(keys: Seq<Key>, m: Map<i32, TouchPos>, id: i32, k: int)
    requires
        forall|i: int| 0 <= i < keys.len() ==> keys[i].is_pressed == key_down(keys, m.values(), i),
        m.dom().contains(id),
        0 <= k < keys.len(),
        resolved_key_index(keys, m[id]) == Some(k),
        forall|j: i32|
            m.dom().contains(j) && j != id ==> resolved_key_index(keys, m[j]) != Some(k),
    ensures
        step_events(keys, pressed_of(keys, m.remove(id).values()), keys.len() as int) =~= seq![
            (false, keys[k].name@),
        ],
{
    let vs0 = m.values();
    let vs1 = m.remove(id).values();
    let flags = pressed_of(keys, vs1);
    assert(keys[k].is_pressed) by {
        assert(m.dom().contains(id) && m[id] == m[id]);
        assert(vs0.contains(m[id]));
        assert(resolved_key_index(keys, m[id]) == Some(k));
        assert(key_down(keys, vs0, k));
    }
    assert(!key_down(keys, vs1, k)) by {
        if key_down(keys, vs1, k) {
            let p = choose|p: TouchPos|
                vs1.contains(p) && resolved_key_index(keys, p) == Some(k);
            let j = choose|j: i32| m.remove(id).dom().contains(j) && m.remove(id)[j] == p;
            assert(m.dom().contains(j) && j != id && m[j] == p);
        }
    }
    assert forall|i: int| 0 <= i < keys.len() && i != k implies flags[i]
        == keys[i].is_pressed by {
        if key_down(keys, vs1, i) {
            let p = choose|p: TouchPos|
                vs1.contains(p) && resolved_key_index(keys, p) == Some(i);
            let j = choose|j: i32| m.remove(id).dom().contains(j) && m.remove(id)[j] == p;
            assert(m.dom().contains(j) && m[j] == p);
            assert(vs0.contains(p));
            assert(key_down(keys, vs0, i));
        }
        if key_down(keys, vs0, i) {
            let p = choose|p: TouchPos|
                vs0.contains(p) && resolved_key_index(keys, p) == Some(i);
            let j = choose|j: i32| m.dom().contains(j) && m[j] == p;
            if j == id {
                assert(resolved_key_index(keys, p) == Some(k));
            } else {
                assert(m.remove(id).dom().contains(j) && m.remove(id)[j] == p);
                assert(vs1.contains(p));
            }
            assert(key_down(keys, vs1, i));
        }
    }
    crate::emitter::lemma_single_release(keys, flags, keys.len() as int, k);
}

} // verus!
