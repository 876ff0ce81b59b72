use parsable::{FileInfo, ItemLocation, LineColLookup};
use std::rc::Rc;

fn span(text: &str, start: usize, end: usize) -> ItemLocation {
    ItemLocation {
        file: Rc::new(FileInfo::new(
            text.to_string(),
            "file.lt".to_string(),
            "/pkg/root".to_string(),
        )),
        start,
        end,
    }
}

#[test]
fn lookup_starts_at_line_one_column_one() {
    let lookup = LineColLookup::new("ab\nc");
    assert_eq!(lookup.get(0), (1, 1));
}

#[test]
fn lookup_attributes_newline_to_terminated_line() {
    let lookup = LineColLookup::new("ab\nc");
    assert_eq!(lookup.get(1), (1, 2));
    assert_eq!(lookup.get(2), (1, 3));
    assert_eq!(lookup.get(3), (2, 1));
    assert_eq!(lookup.get(4), (2, 2));
}

#[test]
fn lookup_sentinel_past_end() {
    let lookup = LineColLookup::new("");
    assert_eq!(lookup.get(0), (1, 1));
}

#[test]
fn file_line_col_in_and_out_of_range() {
    let file = FileInfo::new("a\nb".to_string(), String::new(), String::new());
    assert_eq!(file.get_line_col(2), Some((2, 1)));
    assert_eq!(file.get_line_col(3), Some((2, 2)));
    assert_eq!(file.get_line_col(4), None);
}

#[test]
fn empty_location_is_empty() {
    let location = ItemLocation::empty();
    assert!(location.is_empty());
    assert_eq!(location.start, 0);
    assert_eq!(location.end, 0);
}

#[test]
fn named_location_is_not_empty() {
    assert!(!span("abc", 0, 1).is_empty());
}

#[test]
fn as_str_extracts_covered_text() {
    assert_eq!(span("hello world", 6, 11).as_str(), "world");
}

#[test]
fn length_is_span_width() {
    assert_eq!(span("hello", 1, 4).length(), 3);
}

#[test]
fn get_end_collapses_to_end_point() {
    let end = span("hello", 1, 4).get_end();
    assert_eq!(end.start, 4);
    assert_eq!(end.end, 4);
}

#[test]
fn set_start_with_offset_collapses_to_shifted_point() {
    let point = span("hello", 1, 4).set_start_with_offset(2);
    assert_eq!(point.start, 3);
    assert_eq!(point.end, 3);
}

#[test]
fn offset_shifts_both_bounds() {
    let shifted = span("hello", 1, 4).offset(-1, 1);
    assert_eq!(shifted.start, 0);
    assert_eq!(shifted.end, 5);
}

#[test]
fn until_covers_the_gap() {
    let a = span("hello world", 0, 5);
    let b = span("hello world", 6, 11);
    let gap = a.until(&b);
    assert_eq!(gap.start, 5);
    assert_eq!(gap.end, 6);
    assert_eq!(gap.as_str(), " ");
}

#[test]
fn contains_is_inclusive() {
    let outer = span("hello", 1, 4);
    assert!(outer.contains(&span("hello", 1, 4)));
    assert!(outer.contains(&span("hello", 2, 3)));
    assert!(!outer.contains(&span("hello", 0, 3)));
    assert!(!outer.contains(&span("hello", 2, 5)));
}

#[test]
fn contains_cursor_checks_path_and_bounds() {
    let location = span("hello", 1, 4);
    assert!(location.contains_cursor("file.lt", 1));
    assert!(location.contains_cursor("file.lt", 4));
    assert!(!location.contains_cursor("file.lt", 5));
    assert!(!location.contains_cursor("other.lt", 2));
}

#[test]
fn equality_requires_the_same_file_instance() {
    let file = Rc::new(FileInfo::new(
        "hello".to_string(),
        "file.lt".to_string(),
        "/pkg/root".to_string(),
    ));
    let a = ItemLocation { file: Rc::clone(&file), start: 1, end: 4 };
    let b = ItemLocation { file: Rc::clone(&file), start: 1, end: 4 };
    let c = ItemLocation { file: Rc::clone(&file), start: 1, end: 3 };
    assert!(a == b);
    assert!(a != c);
    // Equal paths and bounds over a distinct file instance do not suffice.
    assert!(span("hello", 1, 4) != a);
}

#[test]
fn equal_spans_hash_alike() {
    assert_eq!(span("hello", 1, 4).get_hash(), span("hello", 1, 4).get_hash());
    assert_ne!(span("hello", 1, 4).get_hash(), span("hello", 1, 3).get_hash());
}

#[test]
fn compute_lookup_index_indexes_the_file() {
    let lookup = span("a\nb", 0, 1).compute_lookup_index();
    assert_eq!(lookup.get(2), (2, 1));
}

#[test]
fn root_directory_name_is_last_component() {
    assert_eq!(span("x", 0, 0).get_root_directory_name(), "root");
}

#[test]
fn root_directory_name_ignores_trailing_slashes() {
    let location = ItemLocation {
        file: Rc::new(FileInfo::new(String::new(), String::new(), "/a/b//".to_string())),
        start: 0,
        end: 0,
    };
    assert_eq!(location.get_root_directory_name(), "b");
}

#[test]
fn root_directory_name_skips_dot_segments() {
    let location = ItemLocation {
        file: Rc::new(FileInfo::new(String::new(), String::new(), "/a/b/.".to_string())),
        start: 0,
        end: 0,
    };
    assert_eq!(location.get_root_directory_name(), "b");
    let lone = ItemLocation {
        file: Rc::new(FileInfo::new(String::new(), String::new(), ".".to_string())),
        start: 0,
        end: 0,
    };
    assert_eq!(lone.get_root_directory_name(), "");
}

#[test]
fn root_directory_name_of_parent_reference_is_empty() {
    let location = ItemLocation {
        file: Rc::new(FileInfo::new(String::new(), String::new(), "/a/..".to_string())),
        start: 0,
        end: 0,
    };
    assert_eq!(location.get_root_directory_name(), "");
}

#[test]
fn file_equality_is_by_path() {
    let a = FileInfo::new("one".to_string(), "p.lt".to_string(), String::new());
    let b = FileInfo::new("two".to_string(), "p.lt".to_string(), String::new());
    let c = FileInfo::new("one".to_string(), "q.lt".to_string(), String::new());
    assert!(a == b);
    assert!(a != c);
}
