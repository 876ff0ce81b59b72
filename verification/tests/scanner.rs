use parsable::{ParseOptions, StringReader};

fn options(comment: Option<&'static str>) -> ParseOptions {
    ParseOptions { file_path: None, package_root_path: None, comment_start: comment }
}

fn reader(text: &str, comment: Option<&'static str>) -> StringReader {
    StringReader::new(text.to_string(), options(comment))
}

#[test]
fn eat_spaces_skips_space_run() {
    let mut r = reader("  \t\nx", None);
    r.eat_spaces();
    assert_eq!(r.get_index(), 4);
    assert_eq!(r.as_char(), 'x');
}

#[test]
fn eat_spaces_skips_line_comments() {
    let mut r = reader("  // hi\n  x", Some("//"));
    r.eat_spaces();
    assert_eq!(r.get_index(), 10);
    assert_eq!(r.as_char(), 'x');
}

#[test]
fn eat_spaces_skips_consecutive_comments() {
    let mut r = reader("// a\n// b\nx", Some("//"));
    r.eat_spaces();
    assert_eq!(r.as_char(), 'x');
}

#[test]
fn eat_spaces_without_comment_token_keeps_content() {
    let mut r = reader("abc", None);
    r.eat_spaces();
    assert_eq!(r.get_index(), 0);
}

#[test]
fn eat_spaces_is_idempotent() {
    let mut r = reader("   x  // c\ny", Some("//"));
    r.eat_spaces();
    let first = r.get_index();
    r.eat_spaces();
    assert_eq!(r.get_index(), first);
}

#[test]
fn keyword_literal_needs_boundary() {
    let mut r = reader("ifx", None);
    assert!(r.read_string("if").is_none());
    assert_eq!(r.get_index(), 0);
}

#[test]
fn keyword_literal_matches_at_boundary() {
    let mut r = reader("if x", None);
    assert_eq!(r.read_string("if"), Some("if"));
    assert_eq!(r.get_index(), 2);
}

#[test]
fn symbol_literal_needs_no_boundary() {
    let mut r = reader("+=1", None);
    assert_eq!(r.read_string("+="), Some("+="));
    assert_eq!(r.get_index(), 2);
}

#[test]
fn empty_literal_never_matches() {
    let mut r = reader("abc", None);
    assert!(r.read_string("").is_none());
    assert_eq!(r.get_index(), 0);
}

#[test]
fn lookahead_does_not_advance() {
    let r = reader("ab", None);
    assert_eq!(r.at(0), 'a');
    assert_eq!(r.at(1), 'b');
    assert_eq!(r.at(2), '\0');
    assert_eq!(r.get_index(), 0);
}

#[test]
fn as_char_at_end_is_null() {
    let r = reader("", None);
    assert_eq!(r.as_char(), '\0');
    assert!(r.is_finished());
}

#[test]
fn save_and_restore_offset() {
    let mut r = reader("ab+cd", None);
    let mark = r.get_index();
    assert!(r.read_string("ab").is_some());
    assert_eq!(r.get_index(), 2);
    r.set_index(mark);
    assert_eq!(r.get_index(), 0);
    assert_eq!(r.as_str(), "ab+cd");
}

#[test]
fn advance_returns_consumed_slice() {
    let mut r = reader("hello", None);
    assert_eq!(r.advance(2), Some("he"));
    assert_eq!(r.get_index(), 2);
    assert!(r.advance(0).is_none());
    assert_eq!(r.get_index(), 2);
}

#[test]
fn read_function_consumes_measured_prefix() {
    let mut r = reader("abab!", None);
    let consumed = r.read_function(|s: &str| {
        let mut n = 0;
    // measure: leading 'a' and 'b' characters
        for c in s.chars() {
            if c == 'a' || c == 'b' {
                n += 1;
            } else {
                break;
            }
        }
        n
    });
    assert_eq!(consumed, Some("abab"));
    assert_eq!(r.get_index(), 4);
}

#[test]
fn read_regex_matches_anchored_prefix() {
    let mut r = reader("abc123", None);
    assert_eq!(r.read_regex("[a-z]+"), Some("abc"));
    assert_eq!(r.get_index(), 3);
}

#[test]
fn read_regex_is_anchored_at_cursor() {
    let mut r = reader("123abc", None);
    assert!(r.read_regex("[a-z]+").is_none());
    assert_eq!(r.get_index(), 0);
}

#[test]
fn read_regex_zero_length_match_succeeds_in_place() {
    let mut r = reader("abc", None);
    assert_eq!(r.read_regex("[0-9]*"), Some(""));
    assert_eq!(r.get_index(), 0);
}

#[test]
fn file_path_is_exposed_for_diagnostics() {
    let r = StringReader::new(
        String::new(),
        ParseOptions {
            file_path: Some("main.lt".to_string()),
            package_root_path: None,
            comment_start: None,
        },
    );
    assert_eq!(r.get_file_path(), "main.lt");
}

#[test]
fn peek_regex_does_not_advance() {
    let mut r = reader("abc", None);
    assert!(r.peek_regex("[a-z]+"));
    assert!(!r.peek_regex("[0-9]+"));
    assert_eq!(r.get_index(), 0);
}

#[test]
fn backtracked_index_excludes_trailing_spaces() {
    let mut r = reader("ab  c", None);
    assert!(r.read_string("ab").is_some());
    r.eat_spaces();
    assert_eq!(r.get_index(), 4);
    assert_eq!(r.get_index_backtracked(), 2);
}

#[test]
fn item_location_spans_token_without_trailing_spaces() {
    let mut r = reader("ab  c", None);
    let start = r.get_index();
    assert!(r.read_string("ab").is_some());
    r.eat_spaces();
    let location = r.get_item_location(start);
    assert_eq!(location.start, 0);
    assert_eq!(location.end, 2);
    assert_eq!(location.as_str(), "ab");
}

#[test]
fn furthest_expectation_wins() {
    let mut r = reader("ab", None);
    r.set_expected_string("x");
    assert!(r.read_string("ab").is_some());
    r.set_expected_string("y");
    let e = r.get_error();
    assert_eq!(e.index, 2);
    assert_eq!(e.expected, vec!["\"y\"".to_string()]);
}

#[test]
fn expectations_at_same_offset_accumulate() {
    let mut r = reader("ab", None);
    r.set_expected_string("x");
    r.set_expected_regex("[0-9]+");
    let e = r.get_error();
    assert_eq!(e.index, 0);
    assert_eq!(e.expected, vec!["\"x\"".to_string(), "/[0-9]+/".to_string()]);
}

#[test]
fn nearer_expectation_is_discarded() {
    let mut r = reader("ab", None);
    let mark = r.get_index();
    assert!(r.read_string("ab").is_some());
    r.set_expected_string("y");
    r.set_index(mark);
    r.set_expected_string("x");
    let e = r.get_error();
    assert_eq!(e.index, 2);
    assert_eq!(e.expected, vec!["\"y\"".to_string()]);
}

#[test]
fn empty_expected_literal_records_nothing() {
    let mut r = reader("ab", None);
    r.set_expected_string("");
    let e = r.get_error();
    assert!(e.expected.is_empty());
}

#[test]
fn error_index_backs_out_of_whitespace_onto_next_column() {
    let mut r = reader("a \n b", None);
    assert!(r.read_string("a").is_some());
    r.eat_spaces();
    assert_eq!(r.get_index(), 4);
    r.set_expected_string("x");
    let e = r.get_error();
    // Backed up past " \n " to offset 1, then forward over the inline space
    // only: the diagnostic points at offset 2, the newline's column.
    assert_eq!(e.index, 2);
}

#[test]
fn error_carries_file_label() {
    let mut r = StringReader::new(
        "a".to_string(),
        ParseOptions {
            file_path: Some("main.lt".to_string()),
            package_root_path: None,
            comment_start: None,
        },
    );
    r.set_expected_string("b");
    let e = r.get_error();
    assert_eq!(e.file.path, "main.lt");
    assert_eq!(e.file.get_line_col(0), Some((1, 1)));
}
