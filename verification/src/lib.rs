//! Runtime engine for recursive-descent parsers: a cursor-based scanner over
//! an in-memory source text, furthest-failure error tracking, source-location
//! bookkeeping with a line/column index, a stack of named boolean markers for
//! threading contextual state through recursive calls, and generic combinator
//! implementations of the parsing contract.

mod end_of_file;
mod file_info;
mod line_col_lookup;
mod item_location;
mod marker_list;
mod parsable;
mod parse_error;
mod primitive_types;
mod string_reader;
mod utils;

pub use file_info::FileInfo;
pub use item_location::ItemLocation;
pub use line_col_lookup::LineColLookup;
pub use parsable::Parsable;
pub use parse_error::ParseError;
pub use string_reader::{StringReader, ParseOptions};

use vstd::prelude::*;

verus! {

/// The line and column attributed to a given character offset of a text,
/// both 1-based. A newline character belongs to the line it terminates;
/// the position right after it starts the next line at column 1.
pub open spec fn line_col_at(text: Seq<char>, i: int) -> (int, int)
    decreases i,
{
    if i <= 0 {
        (1, 1)
    } else {
        let prev = line_col_at(text, i - 1);
        if text[i - 1] == '\n' {
            (prev.0 + 1, 1)
        } else {
            (prev.0, prev.1 + 1)
        }
    }
}

} // verus!
