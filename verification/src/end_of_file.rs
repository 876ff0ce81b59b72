//! The end-of-input item: parsing it succeeds exactly at the end of the
//! text and never moves the cursor.

use vstd::prelude::*;
use crate::parsable::Parsable;
use crate::string_reader::StringReader;

verus! {

broadcast use crate::string_reader::lemma_tracker_unchanged_extends;

pub struct EndOfFile;

impl Parsable for EndOfFile {
    fn parse_item(reader: &mut StringReader) -> (r: Option<Self>)
        ensures
            r is Some <==> old(reader).cursor() == old(reader).text().len(),
            *final(reader) == *old(reader),
    {
        if reader.is_finished() {
            Some(EndOfFile)
        } else {
            None
        }
    }

    fn get_item_name() -> (r: String)
        ensures
            r@ == "<EOF>"@,
    {
        String::from_str("<EOF>")
    }
}

} // verus!
