//! Dense index from character offset to (line, column), built once from a
//! source text in one pass and queried in constant time.

use vstd::prelude::*;
use crate::line_col_at;

verus! {

/// One (line, column) entry per character offset of the indexed text, plus a
/// sentinel entry for the position just past the end.
pub struct LineColLookup {
    pub lookup: Vec<(usize, usize)>,
}

impl LineColLookup {
    /// The index is faithful to `text`: it has one entry per offset plus the
    /// sentinel, and each entry is the (line, column) of that offset.
    pub open spec fn wf_for(&self, text: Seq<char>) -> bool {
        &&& self.lookup@.len() == text.len() + 1
        &&& forall|i: int|
            0 <= i <= text.len() ==> (#[trigger] self.lookup@[i]).0 == line_col_at(text, i).0
                && self.lookup@[i].1 == line_col_at(text, i).1
    }

    pub fn new(string: &str) -> (r: Self)
        requires
            string@.len() < usize::MAX,
        ensures
            r.wf_for(string@),
    {
        let text_len = string.unicode_len();
        let mut lookup: Vec<(usize, usize)> = Vec::with_capacity(text_len + 1);
        let mut line: usize = 1;
        let mut col: usize = 1;
        let mut pos: usize = 0;

        while pos < text_len
            invariant
                string@.len() < usize::MAX,
                text_len == string@.len(),
                pos <= text_len,
                lookup@.len() == pos,
                line == line_col_at(string@, pos as int).0,
                col == line_col_at(string@, pos as int).1,
                line <= pos + 1,
                col <= pos + 1,
                forall|i: int|
                    0 <= i < pos ==> (#[trigger] lookup@[i]).0 == line_col_at(string@, i).0
                        && lookup@[i].1 == line_col_at(string@, i).1,
            decreases text_len - pos,
        {
            let c = string.get_char(pos);
            lookup.push((line, col));

            if c == '\n' {
                line = line + 1;
                col = 1;
            } else {
                col = col + 1;
            }
            pos = pos + 1;
        }

        lookup.push((line, col));

        Self { lookup }
    }

    pub fn get(&self, index: usize) -> (r: (usize, usize))
        requires
            index < self.lookup@.len(),
        ensures
            r == self.lookup@[index as int],
    {
        self.lookup[index]
    }
}

/// Any text starts at line 1, column 1.
pub proof fn lemma_line_col_origin(text: Seq<char>)
    ensures
        line_col_at(text, 0) == (1int, 1int),
{
}

/// The offset immediately after a newline starts a new line at column 1.
pub proof fn lemma_newline_starts_line(text: Seq<char>, i: int)
    requires
        0 <= i < text.len(),
        text[i] == '\n',
    ensures
        line_col_at(text, i + 1).0 == line_col_at(text, i).0 + 1,
        line_col_at(text, i + 1).1 == 1,
{
}

} // verus!
