//! The parsing contract: a type is parsable when it can read itself from a
//! scanner, failing without consuming, and name itself for diagnostics.
//! `parse` is the top-level entry point around any implementation.

use vstd::prelude::*;
use crate::item_location::ItemLocation;
use crate::parse_error::ParseError;
use crate::string_reader::{ParseOptions, StringReader, tracker_extends};

verus! {

broadcast use crate::string_reader::lemma_reader_wf_bounds, crate::string_reader::lemma_reader_views, crate::string_reader::lemma_records_expectation_extends, crate::string_reader::lemma_tracker_unchanged_extends, crate::string_reader::lemma_tracker_extends_trans;

pub trait Parsable: Sized {
    /// Parse one item at the cursor. On failure the cursor is restored to
    /// where it stood, so the caller may try an alternative; on success the
    /// cursor only moves forward. The source text and configuration are
    /// never touched.
    fn parse_item(reader: &mut StringReader) -> (r: Option<Self>)
        requires
            old(reader).wf(),
        ensures
            final(reader).wf(),
            final(reader).same_source(*old(reader)),
            old(reader).cursor() <= final(reader).cursor(),
            tracker_extends(*old(reader), *final(reader)),
            r is None ==> final(reader).cursor() == old(reader).cursor(),
    ;

    /// Parsing for tightly packed lexical runs, where the container must
    /// not skip whitespace between elements. Container shapes that do not
    /// support it parse nothing.
    fn parse_item_without_consuming_spaces(reader: &mut StringReader) -> (r: Option<Self>)
        requires
            old(reader).wf(),
        ensures
            final(reader).wf(),
            final(reader).same_source(*old(reader)),
            old(reader).cursor() <= final(reader).cursor(),
            tracker_extends(*old(reader), *final(reader)),
            r is None ==> final(reader).cursor() == old(reader).cursor(),
    {
        None
    }

    /// Parsing with a required literal separator between successive
    /// elements. Container shapes that do not support it parse nothing.
    fn parse_item_with_separator(reader: &mut StringReader, separator: &'static str) -> (r:
        Option<Self>)
        requires
            old(reader).wf(),
        ensures
            final(reader).wf(),
            final(reader).same_source(*old(reader)),
            old(reader).cursor() <= final(reader).cursor(),
            tracker_extends(*old(reader), *final(reader)),
            r is None ==> final(reader).cursor() == old(reader).cursor(),
    {
        None
    }

    /// The span the parsed value covers, for types that carry one.
    fn location(&self) -> (r: Option<&ItemLocation>) {
        None
    }

    /// Completion candidates a language server may offer for this item.
    fn get_completion_suggestions() -> (r: &'static [&'static str]) {
        &[]
    }

    /// The human-readable name used in diagnostics.
    fn get_item_name() -> (r: String);

    /// The top-level entry point: parse the whole text as one item. Leading
    /// insignificant bytes are skipped; the item must then consume the rest
    /// of the input, else the failure that reached furthest is reported.
    fn parse(string: String, options: ParseOptions) -> (r: Result<Self, ParseError>)
        requires
            string@.len() < usize::MAX,
        ensures
            r matches Err(e) ==> e.index <= string@.len() && e.file.content@ == string@
                && e.file.wf() && e.file.path@ == (match options.file_path {
                Some(p) => p@,
                None => Seq::<char>::empty(),
            }),
    {
        let mut reader = StringReader::new(string, options);

        reader.eat_spaces();

        match Self::parse_item(&mut reader) {
            Some(value) => {
                if reader.is_finished() {
                    Ok(value)
                } else {
                    reader.set_expected_end_of_input();
                    Err(reader.get_error())
                }
            },
            None => {
                reader.set_expected_entity(Self::get_item_name());
                Err(reader.get_error())
            },
        }
    }
}

} // verus!
