//! The terminal diagnostic of a failed parse: the file it arose in, the
//! offset the failure points at, and the expectations recorded there.

use vstd::prelude::*;
use std::rc::Rc;
use crate::file_info::FileInfo;

verus! {

pub struct ParseError {
    pub file: Rc<FileInfo>,
    pub index: usize,
    pub expected: Vec<String>,
}

} // verus!
