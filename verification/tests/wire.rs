use mini_piano::emitter::Event;
use mini_piano::protocol::{parse_event, serialize_event, starts_with_chk};

#[test]
fn serialize_press_and_release() {
    let e = Event { press: true, name: "b3".to_string() };
    assert_eq!(serialize_event(&e), "PRESS b3");
    let e = Event { press: false, name: "w12".to_string() };
    assert_eq!(serialize_event(&e), "RELEASE w12");
}

#[test]
fn round_trip_keeps_kind_and_name() {
    let e = Event { press: true, name: "b3".to_string() };
    let line = serialize_event(&e);
    let back = parse_event(&line).expect("a valid line");
    assert_eq!(back, e);

    let e = Event { press: false, name: "m5".to_string() };
    let back = parse_event(&serialize_event(&e)).expect("a valid line");
    assert_eq!(back, e);
}

#[test]
fn parse_takes_the_second_token() {
    let e = parse_event("PRESS w1 trailing words").expect("a valid line");
    assert_eq!(e, Event { press: true, name: "w1".to_string() });
    let e = parse_event("RELEASE b10").expect("a valid line");
    assert_eq!(e, Event { press: false, name: "b10".to_string() });
}

#[test]
fn trailing_newline_and_carriage_return_are_stripped() {
    let e = parse_event("PRESS w1\r").expect("a valid line");
    assert_eq!(e, Event { press: true, name: "w1".to_string() });
    let e = parse_event("PRESS w1\n").expect("a valid line");
    assert_eq!(e, Event { press: true, name: "w1".to_string() });
    let e = parse_event("RELEASE b3\r\n").expect("a valid line");
    assert_eq!(e, Event { press: false, name: "b3".to_string() });
}

#[test]
fn any_whitespace_bounds_the_token() {
    let e = parse_event("PRESS w1\tignored").expect("a valid line");
    assert_eq!(e, Event { press: true, name: "w1".to_string() });
    // the name is the second whitespace-separated token, so a run of
    // spaces after the prefix does not make it empty
    let e = parse_event("PRESS  w1").expect("a valid line");
    assert_eq!(e, Event { press: true, name: "w1".to_string() });
}

#[test]
fn lines_matching_neither_prefix_fail() {
    assert!(parse_event("BANANA w1").is_none());
    assert!(parse_event("PRESS").is_none());
    assert!(parse_event("press w1").is_none());
    assert!(parse_event("").is_none());
}

#[test]
fn prefix_check_matches_literal_prefixes() {
    assert!(starts_with_chk("PRESS w1", "PRESS "));
    assert!(!starts_with_chk("RELEASE w1", "PRESS "));
    assert!(!starts_with_chk("PRES", "PRESS "));
}
