use parsable::{Parsable, ParseOptions, StringReader};

fn options() -> ParseOptions {
    ParseOptions { file_path: None, package_root_path: None, comment_start: None }
}

fn reader(text: &str) -> StringReader {
    StringReader::new(text.to_string(), options())
}

/// The literal "a".
struct LitA;

impl Parsable for LitA {
    fn parse_item(reader: &mut StringReader) -> Option<Self> {
        match reader.read_string("a") {
            Some(_) => {
                reader.eat_spaces();
                Some(LitA)
            }
            None => {
                reader.set_expected_string("a");
                None
            }
        }
    }

    fn get_item_name() -> String {
        "letter a".to_string()
    }
}

/// The literal "b".
struct LitB;

impl Parsable for LitB {
    fn parse_item(reader: &mut StringReader) -> Option<Self> {
        match reader.read_string("b") {
            Some(_) => {
                reader.eat_spaces();
                Some(LitB)
            }
            None => {
                reader.set_expected_string("b");
                None
            }
        }
    }

    fn get_item_name() -> String {
        "letter b".to_string()
    }
}

/// A lowercase word, with leading inline spaces skipped but trailing ones
/// left for the next item.
#[derive(Debug, PartialEq)]
struct Word(String);

impl Parsable for Word {
    fn parse_item(reader: &mut StringReader) -> Option<Self> {
        let start = reader.get_index();
        loop {
            let c = reader.as_char();
            if c == ' ' || c == '\t' {
                reader.advance(1);
            } else {
                break;
            }
        }
        match reader.read_regex("[a-z]+") {
            Some(word) => Some(Word(word.to_string())),
            None => {
                reader.set_expected_regex("[a-z]+");
                reader.set_index(start);
                None
            }
        }
    }

    fn get_item_name() -> String {
        "word".to_string()
    }
}

#[test]
fn unit_always_succeeds_and_consumes_nothing() {
    let mut r = reader("abc");
    assert!(<() as Parsable>::parse_item(&mut r).is_some());
    assert_eq!(r.get_index(), 0);
}

#[test]
fn boxed_item_parses_like_the_wrapped_type() {
    let mut r = reader("a");
    let parsed = <Box<LitA> as Parsable>::parse_item(&mut r);
    assert!(parsed.is_some());
    assert_eq!(r.get_index(), 1);
    assert!(parsed.unwrap().location().is_none());
}

#[test]
fn optional_absence_is_success_with_expectation() {
    let mut r = reader("b");
    let parsed = <Option<LitA> as Parsable>::parse_item(&mut r);
    assert!(matches!(parsed, Some(None)));
    assert_eq!(r.get_index(), 0);
    let e = r.get_error();
    assert_eq!(e.index, 0);
    assert_eq!(e.expected, vec!["\"a\"".to_string(), "letter a".to_string()]);
}

#[test]
fn optional_presence_consumes_the_item() {
    let mut r = reader("a");
    let parsed = <Option<LitA> as Parsable>::parse_item(&mut r);
    assert!(matches!(parsed, Some(Some(LitA))));
    assert_eq!(r.get_index(), 1);
}

#[test]
fn repeated_items_parse_greedily() {
    let mut r = reader("a a a b");
    let parsed = <Vec<LitA> as Parsable>::parse_item(&mut r).unwrap();
    assert_eq!(parsed.len(), 3);
    assert_eq!(r.get_index(), 6);
}

#[test]
fn repeated_items_may_be_absent() {
    let mut r = reader("b");
    let parsed = <Vec<LitA> as Parsable>::parse_item(&mut r).unwrap();
    assert!(parsed.is_empty());
    assert_eq!(r.get_index(), 0);
}

#[test]
fn repeated_zero_width_items_stop_after_one() {
    let mut r = reader("x");
    let parsed = <Vec<()> as Parsable>::parse_item(&mut r).unwrap();
    assert_eq!(parsed.len(), 1);
    assert_eq!(r.get_index(), 0);
}

/// The literal "+": a symbol, free of the identifier-boundary rule.
struct Plus;

impl Parsable for Plus {
    fn parse_item(reader: &mut StringReader) -> Option<Self> {
        match reader.read_string("+") {
            Some(_) => Some(Plus),
            None => {
                reader.set_expected_string("+");
                None
            }
        }
    }

    fn get_item_name() -> String {
        "plus sign".to_string()
    }
}

#[test]
fn unspaced_repetition_stops_at_whitespace() {
    let mut r = reader("++ +");
    let parsed = <Vec<Plus> as Parsable>::parse_item_without_consuming_spaces(&mut r).unwrap();
    assert_eq!(parsed.len(), 2);
    assert_eq!(r.get_index(), 2);
}

#[test]
fn sequence_pair_parses_both_in_order() {
    let mut r = reader("a b");
    assert!(<(LitA, LitB) as Parsable>::parse_item(&mut r).is_some());
    assert_eq!(r.get_index(), 3);
}

#[test]
fn sequence_pair_failure_is_atomic() {
    let mut r = reader("a c");
    let before = r.get_index();
    assert!(<(LitA, LitB) as Parsable>::parse_item(&mut r).is_none());
    // The first element succeeded and advanced, but the pair's failure
    // restores the cursor to where the pair was attempted.
    assert_eq!(r.get_index(), before);
    let e = r.get_error();
    assert_eq!(e.index, 2);
    assert_eq!(
        e.expected,
        vec!["\"b\"".to_string(), "letter b".to_string()]
    );
}

#[test]
fn end_to_end_two_words_leave_trailing_spaces_unconsumed() {
    let parsed = <(Word, Word)>::parse("  foo bar  ".to_string(), options());
    let e = parsed.err().unwrap();
    // Both words parse; the cursor then sits at the first trailing space,
    // and end-of-input enforcement rejects from there.
    assert_eq!(e.expected, vec!["<EOF>".to_string()]);
    assert_eq!(e.index, 9);
}

#[test]
fn end_to_end_two_words_parse_exactly() {
    let parsed = <(Word, Word)>::parse("  foo bar".to_string(), options()).ok().unwrap();
    assert_eq!(parsed.0, Word("foo".to_string()));
    assert_eq!(parsed.1, Word("bar".to_string()));
}

#[test]
fn end_to_end_empty_input_reports_missing_literal() {
    let parsed = LitA::parse(String::new(), options());
    let e = parsed.err().unwrap();
    assert_eq!(e.index, 0);
    assert_eq!(e.expected, vec!["\"a\"".to_string(), "letter a".to_string()]);
}

#[test]
fn dangling_separator_keeps_items_and_records_expectation() {
    let mut r = reader("a,b,");
    let parsed = <Vec<LitA> as Parsable>::parse_item_with_separator(&mut r, ",").unwrap();
    assert_eq!(parsed.len(), 1);
    let _ = parsed;
    let e = r.get_error();
    assert_eq!(e.index, 2);
    assert_eq!(e.expected, vec!["\"a\"".to_string()]);
}

/// One letter, "a" or "b".
#[derive(Debug, PartialEq)]
struct Letter(char);

impl Parsable for Letter {
    fn parse_item(reader: &mut StringReader) -> Option<Self> {
        if reader.read_string("a").is_some() {
            Some(Letter('a'))
        } else if reader.read_string("b").is_some() {
            Some(Letter('b'))
        } else {
            reader.set_expected_string("a");
            reader.set_expected_string("b");
            None
        }
    }

    fn get_item_name() -> String {
        "letter".to_string()
    }
}

#[test]
fn comma_separated_list_tolerates_dangling_separator() {
    let mut r = reader("a,b,");
    let parsed = <Vec<Letter> as Parsable>::parse_item_with_separator(&mut r, ",").unwrap();
    assert_eq!(parsed, vec![Letter('a'), Letter('b')]);
    assert!(r.is_finished());
    // The element expected after the trailing comma is recorded, at the
    // offset just past that comma.
    let e = r.get_error();
    assert_eq!(e.index, 4);
    assert_eq!(e.expected, vec!["\"a\"".to_string(), "\"b\"".to_string()]);
}

#[test]
fn separated_list_without_separator_stops_after_first_item() {
    let mut r = reader("a b");
    let parsed = <Vec<Letter> as Parsable>::parse_item_with_separator(&mut r, ",").unwrap();
    assert_eq!(parsed, vec![Letter('a')]);
    let e = r.get_error();
    assert_eq!(e.index, 2);
    assert_eq!(e.expected, vec!["\",\"".to_string()]);
}

#[test]
fn pair_name_combines_element_names() {
    assert_eq!(<(LitA, LitB)>::get_item_name(), "(letter a, letter b)");
}

#[test]
fn names_forward_through_containers() {
    assert_eq!(<Vec<LitA>>::get_item_name(), "letter a");
    assert_eq!(<Option<LitA>>::get_item_name(), "letter a");
    assert_eq!(<Box<LitA>>::get_item_name(), "letter a");
    assert_eq!(<() as Parsable>::get_item_name(), "()");
}
