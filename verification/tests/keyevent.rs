use lefthk_core::keyevent::KeyEvent;

#[test]
fn parses_simple_record() {
    let ev = KeyEvent::try_from(String::from("1,0")).unwrap();
    assert_eq!(ev.keysym, 1);
    assert_eq!(ev.modmask, 0);
}

#[test]
fn parses_larger_record() {
    let ev = KeyEvent::try_from(String::from("65307,17")).unwrap();
    assert_eq!(ev.keysym, 65307);
    assert_eq!(ev.modmask, 17);
}

#[test]
fn parses_u32_max() {
    let ev = KeyEvent::try_from(String::from("4294967295,7")).unwrap();
    assert_eq!(ev.keysym, u32::MAX);
    assert_eq!(ev.modmask, 7);
}

#[test]
fn parses_leading_plus_sign() {
    // u32::from_str accepts one leading '+', so the wire decoder does too.
    let ev = KeyEvent::try_from(String::from("+5,7")).unwrap();
    assert_eq!(ev.keysym, 5);
    assert_eq!(ev.modmask, 7);
}

#[test]
fn round_trips_formatted_fields() {
    let cases: [(u32, u32); 4] = [(0, 0), (1, 0), (65307, 17), (u32::MAX, u32::MAX)];
    for (a, b) in cases {
        let line = format!("{},{}", a, b);
        let ev = KeyEvent::try_from(line).unwrap();
        assert_eq!(ev.keysym, a);
        assert_eq!(ev.modmask, b);
    }
}

#[test]
fn rejects_empty_line() {
    assert!(KeyEvent::try_from(String::new()).is_err());
}

#[test]
fn rejects_single_field() {
    assert!(KeyEvent::try_from(String::from("1")).is_err());
}

#[test]
fn rejects_three_fields() {
    assert!(KeyEvent::try_from(String::from("1,2,3")).is_err());
}

#[test]
fn rejects_non_numeric_fields() {
    assert!(KeyEvent::try_from(String::from("a,1")).is_err());
    assert!(KeyEvent::try_from(String::from("1,b")).is_err());
    assert!(KeyEvent::try_from(String::from("1, 2")).is_err());
}

#[test]
fn rejects_empty_fields() {
    assert!(KeyEvent::try_from(String::from("1,")).is_err());
    assert!(KeyEvent::try_from(String::from(",1")).is_err());
    assert!(KeyEvent::try_from(String::from(",")).is_err());
}

#[test]
fn rejects_out_of_range_field() {
    assert!(KeyEvent::try_from(String::from("4294967296,0")).is_err());
    assert!(KeyEvent::try_from(String::from("0,99999999999999999999")).is_err());
}

#[test]
fn decodes_successive_writers_in_order() {
    // Two records as two writers would send them across a reconnect:
    // both decode, in order.
    let first = KeyEvent::try_from(String::from("1,0")).unwrap();
    let second = KeyEvent::try_from(String::from("2,1")).unwrap();
    assert_eq!((first.keysym, first.modmask), (1, 0));
    assert_eq!((second.keysym, second.modmask), (2, 1));
}
