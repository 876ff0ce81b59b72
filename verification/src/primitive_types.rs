//! Built-in combinator implementations of the parsing contract: the unit
//! placeholder, boxed indirection for recursive grammars, optional and
//! repeated elements, and the atomic sequence pair.

use vstd::prelude::*;
use crate::item_location::ItemLocation;
use crate::parsable::Parsable;
use crate::string_reader::{StringReader, tracker_extends};

verus! {

broadcast use crate::string_reader::lemma_reader_wf_bounds, crate::string_reader::lemma_reader_views, crate::string_reader::lemma_records_expectation_extends, crate::string_reader::lemma_tracker_unchanged_extends, crate::string_reader::lemma_tracker_extends_trans;

/// The unit placeholder: always succeeds and consumes nothing.
impl Parsable for () {
    fn parse_item(reader: &mut StringReader) -> (r: Option<Self>)
        ensures
            r is Some,
            *final(reader) == *old(reader),
    {
        Some(())
    }

    fn get_item_name() -> (r: String)
        ensures
            r@ == "()"@,
    {
        String::from_str("()")
    }
}

/// Boxed indirection: parses exactly as the wrapped type; exists so that
/// recursive grammar types can refer to themselves.
impl<T: Parsable> Parsable for Box<T> {
    fn get_item_name() -> (r: String) {
        <T as Parsable>::get_item_name()
    }

    fn parse_item(reader: &mut StringReader) -> (r: Option<Self>) {
        match <T as Parsable>::parse_item(reader) {
            Some(value) => Some(Box::new(value)),
            None => None,
        }
    }

    fn location(&self) -> (r: Option<&ItemLocation>) {
        (&**self).location()
    }
}

/// An optional element: the element's failure is success with "absent", but
/// its expectation is still recorded so sibling diagnostics stay informative.
impl<T: Parsable> Parsable for Option<T> {
    fn get_item_name() -> (r: String) {
        <T as Parsable>::get_item_name()
    }

    fn parse_item(reader: &mut StringReader) -> (r: Option<Self>)
        ensures
            r is Some,
            r == Some(None::<T>) ==> final(reader).cursor() == old(reader).cursor(),
    {
        match <T as Parsable>::parse_item(reader) {
            Some(value) => Some(Some(value)),
            None => {
                reader.set_expected_item::<T>();
                Some(None)
            },
        }
    }
}

/// Zero or more elements, in order; always succeeds. Greedily parses an
/// element, skips insignificant bytes, and repeats until the element fails
/// or stops consuming.
impl<T: Parsable> Parsable for Vec<T> {
    fn parse_item(reader: &mut StringReader) -> (r: Option<Self>)
        ensures
            r is Some,
    {
        let mut result: Vec<T> = Vec::new();

        loop
            invariant
                reader.wf(),
                reader.same_source(*old(reader)),
                old(reader).cursor() <= reader.cursor(),
                tracker_extends(*old(reader), *reader),
                reader.text() == old(reader).text(),
            decreases reader.text().len() - reader.cursor(),
        {
            let before = reader.get_index();
            match T::parse_item(reader) {
                Some(value) => {
                    result.push(value);
                    reader.eat_spaces();
                    if reader.get_index() == before {
                        break;
                    }
                },
                None => {
                    break;
                },
            }
        }
        Some(result)
    }

    /// The tightly packed variant: no whitespace is skipped between
    /// elements.
    fn parse_item_without_consuming_spaces(reader: &mut StringReader) -> (r: Option<Self>)
        ensures
            r is Some,
    {
        let mut result: Vec<T> = Vec::new();

        loop
            invariant
                reader.wf(),
                reader.same_source(*old(reader)),
                old(reader).cursor() <= reader.cursor(),
                tracker_extends(*old(reader), *reader),
                reader.text() == old(reader).text(),
            decreases reader.text().len() - reader.cursor(),
        {
            let before = reader.get_index();
            match T::parse_item(reader) {
                Some(value) => {
                    result.push(value);
                    if reader.get_index() == before {
                        break;
                    }
                },
                None => {
                    break;
                },
            }
        }
        Some(result)
    }

    fn get_item_name() -> (r: String) {
        <T as Parsable>::get_item_name()
    }

    /// Elements separated by a required literal. A missing separator ends
    /// the list rather than failing it, but is recorded as an expectation.
    fn parse_item_with_separator(reader: &mut StringReader, separator: &'static str) -> (r:
        Option<Self>)
        ensures
            r is Some,
    {
        let mut result: Vec<T> = Vec::new();

        loop
            invariant
                reader.wf(),
                reader.same_source(*old(reader)),
                old(reader).cursor() <= reader.cursor(),
                tracker_extends(*old(reader), *reader),
                reader.text() == old(reader).text(),
            decreases reader.text().len() - reader.cursor(),
        {
            let before = reader.get_index();
            match T::parse_item(reader) {
                Some(value) => {
                    result.push(value);
                    reader.eat_spaces();
                    match reader.read_string(separator) {
                        Some(_) => {
                            reader.eat_spaces();
                            if reader.get_index() == before {
                                break;
                            }
                        },
                        None => {
                            proof {
                                assert(tracker_extends(*old(reader), *reader));
                            }
                            reader.set_expected_string(separator);
                            break;
                        },
                    }
                },
                None => {
                    break;
                },
            }
        }
        Some(result)
    }
}

/// The atomic sequence pair: both elements in order, or neither — when the
/// second fails after the first succeeded, the cursor is restored to where
/// the pair began, and each failure records its expectation.
impl<T: Parsable, U: Parsable> Parsable for (T, U) {
    fn get_item_name() -> (r: String) {
        let mut name = String::from_str("(");
        name.append(<T as Parsable>::get_item_name().as_str());
        name.append(", ");
        name.append(<U as Parsable>::get_item_name().as_str());
        name.append(")");
        name
    }

    fn parse_item(reader: &mut StringReader) -> (r: Option<Self>) {
        let start_index = reader.get_index();
        let first = match T::parse_item(reader) {
            Some(value) => value,
            None => {
                reader.set_expected_item::<T>();
                return None;
            },
        };
        let second = match U::parse_item(reader) {
            Some(value) => value,
            None => {
                reader.set_expected_item::<U>();
                reader.set_index(start_index);
                return None;
            },
        };

        Some((first, second))
    }
}

} // verus!
