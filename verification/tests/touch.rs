use mini_piano::geometry::{draw_keys, rect_contains, Key, Rect, TouchPos};
use mini_piano::piano::Piano;
use mini_piano::resolver::{key_at, key_index_at, pressed_flags};

fn white(name: &'static str, left: u32, width: u32) -> Key {
    Key {
        name,
        bounds: Rect { left, top: 0, width, height: 100 },
        is_black: false,
        is_pressed: false,
    }
}

fn black(name: &'static str, left: u32, width: u32) -> Key {
    Key {
        name,
        bounds: Rect { left, top: 0, width, height: 60 },
        is_black: true,
        is_pressed: false,
    }
}

fn names(events: &[mini_piano::emitter::Event]) -> Vec<(bool, String)> {
    events.iter().map(|e| (e.press, e.name.clone())).collect()
}

#[test]
fn key_new_rotates_coordinates() {
    let k = Key::new("w1", 0, 350, 213, 1054, false);
    assert_eq!(k.name, "w1");
    assert_eq!(k.bounds.left, 0);
    assert_eq!(k.bounds.top, 0);
    assert_eq!(k.bounds.width, 1054);
    assert_eq!(k.bounds.height, 213);
    assert!(!k.is_black);
    assert!(!k.is_pressed);

    let m = Key::new("m7", 1672, 0, 200, 150, false);
    assert_eq!(m.bounds.left, 1404 - 150);
    assert_eq!(m.bounds.top, 1672);
}

#[test]
fn rect_contains_is_half_open() {
    let r = Rect { left: 10, top: 20, width: 5, height: 5 };
    assert!(rect_contains(&r, TouchPos { x: 10, y: 20 }));
    assert!(rect_contains(&r, TouchPos { x: 14, y: 24 }));
    assert!(!rect_contains(&r, TouchPos { x: 15, y: 20 }));
    assert!(!rect_contains(&r, TouchPos { x: 10, y: 25 }));
    assert!(!rect_contains(&r, TouchPos { x: 9, y: 20 }));
}

#[test]
fn black_beats_white_on_overlap() {
    let keys = vec![white("w1", 0, 100), white("w2", 100, 100), black("b1", 80, 40)];
    let hit = key_at(TouchPos { x: 90, y: 30 }, &keys).expect("a key");
    assert_eq!(hit.name, "b1");
    // the same point with the black key declared first
    let keys2 = vec![black("b1", 80, 40), white("w1", 0, 100), white("w2", 100, 100)];
    let hit2 = key_at(TouchPos { x: 90, y: 30 }, &keys2).expect("a key");
    assert_eq!(hit2.name, "b1");
}

#[test]
fn same_blackness_takes_first_declared() {
    let keys = vec![white("w1", 0, 100), white("dup", 50, 100)];
    let hit = key_at(TouchPos { x: 70, y: 30 }, &keys).expect("a key");
    assert_eq!(hit.name, "w1");
}

#[test]
fn miss_hits_no_key() {
    let keys = vec![white("w1", 0, 100)];
    assert!(key_at(TouchPos { x: 500, y: 30 }, &keys).is_none());
    assert!(key_index_at(TouchPos { x: 500, y: 30 }, &keys).is_none());
}

#[test]
fn two_fingers_on_one_key_count_once() {
    let keys = vec![white("w1", 0, 100), white("w2", 100, 100)];
    let contacts = vec![TouchPos { x: 10, y: 10 }, TouchPos { x: 20, y: 20 }];
    let flags = pressed_flags(&keys, &contacts);
    assert_eq!(flags, vec![true, false]);
}

#[test]
fn press_move_and_release_edges() {
    let keys = vec![white("w1", 0, 100), white("w2", 100, 100)];
    let mut piano = Piano::new(keys);

    let ev = piano.on_contact_update(1, TouchPos { x: 50, y: 50 });
    assert_eq!(names(&ev), vec![(true, "w1".to_string())]);

    // a move within the same key region emits nothing
    let ev = piano.on_contact_update(1, TouchPos { x: 60, y: 60 });
    assert_eq!(names(&ev), Vec::<(bool, String)>::new());

    // crossing into the next key releases one and presses the other
    let ev = piano.on_contact_update(1, TouchPos { x: 150, y: 50 });
    assert_eq!(names(&ev), vec![(false, "w1".to_string()), (true, "w2".to_string())]);

    // lifting the contact releases its last key, exactly once
    let ev = piano.on_contact_end(1);
    assert_eq!(names(&ev), vec![(false, "w2".to_string())]);

    // a redundant lift-off is a no-op, not an error
    let ev = piano.on_contact_end(1);
    assert_eq!(names(&ev), Vec::<(bool, String)>::new());
}

#[test]
fn second_finger_holds_the_key() {
    let keys = vec![white("w1", 0, 100)];
    let mut piano = Piano::new(keys);
    let ev = piano.on_contact_update(1, TouchPos { x: 10, y: 10 });
    assert_eq!(names(&ev), vec![(true, "w1".to_string())]);
    // a second finger on the same key changes nothing
    let ev = piano.on_contact_update(2, TouchPos { x: 20, y: 20 });
    assert_eq!(names(&ev), Vec::<(bool, String)>::new());
    // lifting one finger keeps the key down
    let ev = piano.on_contact_end(1);
    assert_eq!(names(&ev), Vec::<(bool, String)>::new());
    // lifting the last finger releases it
    let ev = piano.on_contact_end(2);
    assert_eq!(names(&ev), vec![(false, "w1".to_string())]);
}

#[test]
fn alternation_per_key_over_many_steps() {
    let keys = vec![white("w1", 0, 100)];
    let mut piano = Piano::new(keys);
    let mut stream: Vec<bool> = Vec::new();
    for round in 0..4 {
        let ev = piano.on_contact_update(round, TouchPos { x: 10, y: 10 });
        stream.extend(ev.iter().map(|e| e.press));
        let ev = piano.on_contact_end(round);
        stream.extend(ev.iter().map(|e| e.press));
    }
    assert_eq!(stream, vec![true, false, true, false, true, false, true, false]);
}

#[test]
fn draw_keys_fills_black_outlines_white() {
    let keys = vec![white("w1", 5, 100), black("b1", 80, 40)];
    let cmds = draw_keys(&keys);
    assert_eq!(cmds.len(), 2);
    assert_eq!(cmds[0].left, 5);
    assert_eq!(cmds[0].top, 0);
    assert_eq!(cmds[0].width, 100);
    assert_eq!(cmds[0].height, 100);
    assert!(!cmds[0].filled);
    assert_eq!(cmds[1].left, 80);
    assert_eq!(cmds[1].width, 40);
    assert!(cmds[1].filled);
}
