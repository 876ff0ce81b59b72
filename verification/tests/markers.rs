use parsable::{ParseOptions, StringReader};

fn reader() -> StringReader {
    StringReader::new(
        String::new(),
        ParseOptions { file_path: None, package_root_path: None, comment_start: None },
    )
}

#[test]
fn undeclared_marker_reads_false() {
    let r = reader();
    assert!(!r.get_marker("x"));
}

#[test]
fn declared_marker_reads_true() {
    let mut r = reader();
    r.declare_marker("x");
    assert!(r.get_marker("x"));
}

#[test]
fn declare_hands_out_fresh_ids() {
    let mut r = reader();
    let first = r.declare_marker("x");
    let second = r.declare_marker("y");
    assert_ne!(first, second);
}

#[test]
fn set_overwrites_and_returns_previous_value() {
    let mut r = reader();
    r.declare_marker("x");
    assert_eq!(r.set_marker("x", false), true);
    assert!(!r.get_marker("x"));
    assert_eq!(r.set_marker("x", true), false);
    assert!(r.get_marker("x"));
}

#[test]
fn set_on_missing_marker_is_a_silent_no_op() {
    let mut r = reader();
    assert_eq!(r.set_marker("x", true), false);
    assert!(!r.get_marker("x"));
}

#[test]
fn second_declaration_shadows_the_first() {
    let mut r = reader();
    let first = r.declare_marker("x");
    let second = r.declare_marker("x");
    // The most recent declaration is the one lookup and set see.
    r.set_marker("x", false);
    assert!(!r.get_marker("x"));
    // Removing the second restores visibility of the first, untouched.
    r.remove_marker(second);
    assert!(r.get_marker("x"));
    r.remove_marker(first);
    assert!(!r.get_marker("x"));
}

#[test]
fn removal_only_touches_the_given_id() {
    let mut r = reader();
    let x = r.declare_marker("x");
    r.declare_marker("y");
    r.remove_marker(x);
    assert!(!r.get_marker("x"));
    assert!(r.get_marker("y"));
}
