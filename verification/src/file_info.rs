//! One parsed source file: its full text, a path label for diagnostics, a
//! package root label for grouping diagnostics, and the precomputed
//! line/column index of the text.

use vstd::prelude::*;
use std::rc::Rc;
use crate::line_col_lookup::LineColLookup;
use crate::line_col_at;

verus! {

/// Relies on `Rc::clone`: the new handle refers to the same file.
#[verifier::external_body]
pub(crate) fn clone_file_handle(f: &Rc<FileInfo>) -> (r: Rc<FileInfo>)
    ensures
        r == *f,
{
    Rc::clone(f)
}

pub struct FileInfo {
    pub content: String,
    pub path: String,
    pub package_root_path: String,
    pub line_col_lookup: LineColLookup,
}

impl FileInfo {
    /// The stored line/column index matches the stored text.
    pub open spec fn wf(&self) -> bool {
        &&& self.line_col_lookup.wf_for(self.content@)
        &&& self.content@.len() < usize::MAX
    }

    pub fn new(content: String, path: String, package_root_path: String) -> (r: Self)
        requires
            content@.len() < usize::MAX,
        ensures
            r.wf(),
            r.content@ == content@,
            r.path@ == path@,
            r.package_root_path@ == package_root_path@,
    {
        let line_col_lookup = LineColLookup::new(content.as_str());

        Self { content, path, package_root_path, line_col_lookup }
    }

    /// The (line, column) of a character offset of this file's text, or
    /// `None` past the end-of-text sentinel.
    pub fn get_line_col(&self, index: usize) -> (r: Option<(usize, usize)>)
        requires
            self.wf(),
        ensures
            index <= self.content@.len() ==> (r matches Some(lc) && lc.0
                == line_col_at(self.content@, index as int).0 && lc.1
                == line_col_at(self.content@, index as int).1),
            index > self.content@.len() ==> r is None,
    {
        if index < self.line_col_lookup.lookup.len() {
            Some(self.line_col_lookup.get(index))
        } else {
            None
        }
    }
}

impl PartialEq for FileInfo {
    /// File identity is the diagnostic path, not the content.
    fn eq(&self, other: &Self) -> (r: bool) {
        crate::utils::str_eq(self.path.as_str(), other.path.as_str())
    }
}

impl vstd::std_specs::cmp::PartialEqSpecImpl for FileInfo {
    open spec fn obeys_eq_spec() -> bool {
        true
    }

    open spec fn eq_spec(&self, other: &Self) -> bool {
        self.path@ == other.path@
    }
}

} // verus!
