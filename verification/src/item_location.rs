//! A span of one source file: the owning file handle plus start and end
//! character offsets. Spans locate parsed items and anchor diagnostics.

use vstd::prelude::*;
use std::rc::Rc;
use crate::file_info::{FileInfo, clone_file_handle};
use crate::line_col_lookup::LineColLookup;
use crate::utils::str_eq;

verus! {

pub struct ItemLocation {
    pub file: Rc<FileInfo>,
    pub start: usize,
    pub end: usize,
}

/// One mixing step of the location hash (FNV-style: xor, then multiply).
pub open spec fn hash_combine(h: u64, v: u64) -> u64 {
    vstd::wrapping::u64_specs::wrapping_mul(h ^ v, 0x100000001b3u64)
}

/// Folding a character sequence into the hash, one character at a time.
pub open spec fn hash_chars(h: u64, s: Seq<char>) -> u64
    decreases s.len(),
{
    if s.len() == 0 {
        h
    } else {
        hash_chars(hash_combine(h, (s[0] as u32) as u64), s.skip(1))
    }
}

/// The hash of a span: its file's path and both offsets, nothing else.
pub open spec fn location_hash(path: Seq<char>, start: int, end: int) -> u64 {
    hash_combine(hash_combine(hash_chars(0xcbf29ce484222325u64, path), start as u64), end as u64)
}

impl ItemLocation {
    /// The bounds are ordered and lie within the file's text.
    pub open spec fn wf(&self) -> bool {
        &&& self.file.wf()
        &&& self.start <= self.end
        &&& self.end <= self.file.content@.len()
    }

    /// A span of an unnamed, empty file; used as a placeholder location.
    pub fn empty() -> (r: Self)
        ensures
            r.wf(),
            r.start == 0,
            r.end == 0,
            r.file.path@.len() == 0,
    {
        let file = FileInfo::new(String::new(), String::new(), String::new());
        Self { file: Rc::new(file), start: 0, end: 0 }
    }

    /// Whether this span belongs to the placeholder (pathless) file.
    pub fn is_empty(&self) -> (r: bool)
        ensures
            r == (self.file.path@.len() == 0),
    {
        self.file.path.as_str().is_empty()
    }

    /// A hash of the span's identity: file path and bounds.
    pub fn get_hash(&self) -> (r: u64)
        ensures
            r == location_hash(self.file.path@, self.start as int, self.end as int),
    {
        let path = self.file.path.as_str();
        let len = path.unicode_len();
        let mut h: u64 = 0xcbf29ce484222325;
        let mut i: usize = 0;

        proof {
            assert(path@.skip(0) =~= path@);
        }
        while i < len
            invariant
                len == path@.len(),
                i <= len,
                hash_chars(h, path@.skip(i as int)) == hash_chars(0xcbf29ce484222325u64, path@),
            decreases len - i,
        {
            let c = path.get_char(i);
            proof {
                assert(path@.skip(i as int)[0] == path@[i as int]);
                assert(path@.skip(i as int).skip(1) =~= path@.skip(i + 1));
            }
            h = (h ^ ((c as u32) as u64)).wrapping_mul(0x100000001b3);
            i = i + 1;
        }
        let h1 = (h ^ (self.start as u64)).wrapping_mul(0x100000001b3);
        let h2 = (h1 ^ (self.end as u64)).wrapping_mul(0x100000001b3);
        h2
    }

    /// The zero-length span at this span's end.
    pub fn get_end(&self) -> (r: Self)
        requires
            self.wf(),
        ensures
            r.wf(),
            r.file == self.file,
            r.start == self.end,
            r.end == self.end,
    {
        Self { file: clone_file_handle(&self.file), start: self.end, end: self.end }
    }

    /// The zero-length span `offset` characters after this span's start.
    pub fn set_start_with_offset(&self, offset: usize) -> (r: Self)
        requires
            self.wf(),
            self.start + offset <= self.file.content@.len(),
        ensures
            r.wf(),
            r.file == self.file,
            r.start == self.start + offset,
            r.end == self.start + offset,
    {
        let point = self.start + offset;
        Self { file: clone_file_handle(&self.file), start: point, end: point }
    }

    /// This span with both bounds shifted by signed offsets. The shifted
    /// bounds must stay ordered and within the file.
    pub fn offset(&self, start: isize, end: isize) -> (r: Self)
        requires
            self.wf(),
            0 <= self.start + start,
            self.start + start <= self.end + end,
            self.end + end <= self.file.content@.len(),
        ensures
            r.wf(),
            r.file == self.file,
            r.start == self.start + start,
            r.end == self.end + end,
    {
        Self {
            file: clone_file_handle(&self.file),
            start: shift_offset(self.start, start),
            end: shift_offset(self.end, end),
        }
    }

    /// The gap between the end of this span and the start of `other`.
    pub fn until(&self, other: &Self) -> (r: Self)
        requires
            self.wf(),
            self.end <= other.start,
            other.start <= self.file.content@.len(),
        ensures
            r.wf(),
            r.file == self.file,
            r.start == self.end,
            r.end == other.start,
    {
        Self { file: clone_file_handle(&self.file), start: self.end, end: other.start }
    }

    /// Whether a cursor in the named file falls on this span (inclusive on
    /// both ends, so a cursor just past the span still counts).
    pub fn contains_cursor(&self, file_path: &str, cursor_index: usize) -> (r: bool)
        ensures
            r == (self.file.path@ == file_path@ && self.start <= cursor_index
                && cursor_index <= self.end),
    {
        str_eq(self.file.path.as_str(), file_path) && self.start <= cursor_index && cursor_index
            <= self.end
    }

    /// Whether `other` lies entirely within this span, in a file of the
    /// same path.
    pub fn contains(&self, other: &Self) -> (r: bool)
        ensures
            r == (other.file.path@ == self.file.path@ && self.start <= other.start && other.start
                <= self.end && self.start <= other.end && other.end <= self.end),
    {
        str_eq(other.file.path.as_str(), self.file.path.as_str()) && (other.start >= self.start
            && other.start <= self.end) && (other.end >= self.start && other.end <= self.end)
    }

    /// The text this span covers.
    pub fn as_str(&self) -> (r: &str)
        requires
            self.wf(),
        ensures
            r@ == self.file.content@.subrange(self.start as int, self.end as int),
    {
        self.file.content.as_str().substring_char(self.start, self.end)
    }

    /// A fresh line/column index for this span's file.
    pub fn compute_lookup_index(&self) -> (r: LineColLookup)
        requires
            self.wf(),
        ensures
            r.wf_for(self.file.content@),
    {
        LineColLookup::new(self.file.content.as_str())
    }

    /// The number of characters this span covers.
    pub fn length(&self) -> (r: usize)
        requires
            self.wf(),
        ensures
            r == self.end - self.start,
    {
        self.end - self.start
    }

    /// The last directory name of the file's package root path: trailing
    /// slashes and `.` segments are ignored, and a root ending in `..` has
    /// no usable name.
    pub fn get_root_directory_name(&self) -> (r: &str)
        ensures
            r@ == root_directory_name(self.file.package_root_path@),
    {
        let path = self.file.package_root_path.as_str();
        let ghost full = path@;
        let mut stop: usize = path.unicode_len();
        let mut seg: usize = stop;

        proof {
            assert(full.subrange(0, stop as int) =~= full);
        }
        loop
            invariant
                full == path@,
                stop <= full.len(),
                root_directory_name(full.subrange(0, stop as int)) == root_directory_name(full),
            ensures
                full == path@,
                seg <= stop <= full.len(),
                ({
                    let prefix = full.subrange(0, stop as int);
                    let segment = prefix.skip(seg as int);
                    root_directory_name(full) == (if segment == ".."@ {
                        Seq::<char>::empty()
                    } else {
                        segment
                    })
                }),
            decreases stop,
        {
            let ghost outer_stop = stop;

            // Drop the run of trailing slashes.
            while stop > 0 && path.get_char(stop - 1) == '/'
                invariant
                    full == path@,
                    stop <= outer_stop <= full.len(),
                    trim_slashes(full.subrange(0, outer_stop as int)) == trim_slashes(
                        full.subrange(0, stop as int),
                    ),
                decreases stop,
            {
                proof {
                    assert(full.subrange(0, stop as int).drop_last() =~= full.subrange(
                        0,
                        stop - 1,
                    ));
                }
                stop = stop - 1;
            }
            let ghost prefix = full.subrange(0, stop as int);
            proof {
                assert(trim_slashes(prefix) == prefix);
                assert(root_directory_name(full.subrange(0, outer_stop as int))
                    == root_directory_name(prefix));
            }

            // Find the start of the final segment.
            seg = stop;
            proof {
                assert(prefix.subrange(0, seg as int) =~= prefix);
            }
            while seg > 0 && path.get_char(seg - 1) != '/'
                invariant
                    full == path@,
                    seg <= stop <= full.len(),
                    prefix == full.subrange(0, stop as int),
                    segment_start(prefix) == segment_start(prefix.subrange(0, seg as int)),
                decreases seg,
            {
                proof {
                    assert(prefix.subrange(0, seg as int)[seg - 1] == full[seg - 1]);
                    assert(prefix.subrange(0, seg as int).drop_last() =~= prefix.subrange(
                        0,
                        seg - 1,
                    ));
                }
                seg = seg - 1;
            }
            proof {
                lemma_segment_start_bounds(prefix.subrange(0, seg as int));
                if seg > 0 {
                    assert(prefix.subrange(0, seg as int).last() == full[seg - 1]);
                }
                assert(segment_start(prefix) == seg);
            }

            // A `.` segment is skipped: the name is looked for before it.
            if stop - seg == 1 && path.get_char(seg) == '.' {
                proof {
                    reveal_strlit(".");
                    assert(prefix.skip(seg as int) =~= "."@);
                    assert(prefix.subrange(0, seg as int) =~= full.subrange(0, seg as int));
                    assert(root_directory_name(prefix) == root_directory_name(
                        full.subrange(0, seg as int),
                    ));
                }
                stop = seg;
            } else {
                proof {
                    reveal_strlit(".");
                    assert(prefix.skip(seg as int) != "."@) by {
                        if prefix.skip(seg as int) == "."@ {
                            assert(prefix.skip(seg as int).len() == 1);
                            assert(prefix.skip(seg as int)[0] == full[seg as int]);
                        }
                    }
                }
                break;
            }
        }

        let name = path.substring_char(seg, stop);
        proof {
            assert(name@ =~= full.subrange(0, stop as int).skip(seg as int));
            reveal_strlit("..");
            reveal_strlit("");
        }
        if stop > seg && stop - seg == 2 && path.get_char(seg) == '.' && path.get_char(seg + 1)
            == '.' {
            proof {
                assert(name@ =~= ".."@);
            }
            ""
        } else {
            proof {
                assert(name@ != ".."@) by {
                    if name@ == ".."@ {
                        assert(name@.len() == 2);
                        assert(name@[0] == '.' && name@[1] == '.');
                    }
                }
            }
            name
        }
    }
}

/// The path with its trailing slashes removed.
pub open spec fn trim_slashes(s: Seq<char>) -> Seq<char>
    decreases s.len(),
{
    if s.len() > 0 && s.last() == '/' {
        trim_slashes(s.drop_last())
    } else {
        s
    }
}

/// The start of the last `/`-separated segment of a path that does not end
/// in a slash.
pub open spec fn segment_start(s: Seq<char>) -> int
    decreases s.len(),
{
    if s.len() == 0 {
        0
    } else if s.last() == '/' {
        s.len() as int
    } else {
        segment_start(s.drop_last())
    }
}

proof fn lemma_segment_start_bounds(s: Seq<char>)
    ensures
        0 <= segment_start(s) <= s.len(),
    decreases s.len(),
{
    if s.len() > 0 && s.last() != '/' {
        lemma_segment_start_bounds(s.drop_last());
    }
}

proof fn lemma_trim_slashes_bounds(s: Seq<char>)
    ensures
        trim_slashes(s).len() <= s.len(),
    decreases s.len(),
{
    if s.len() > 0 && s.last() == '/' {
        lemma_trim_slashes_bounds(s.drop_last());
    }
}

/// The last directory name of a path: trailing slashes are dropped and `.`
/// segments are skipped over; the final remaining segment is the name, and
/// a path ending in `..` has none.
pub open spec fn root_directory_name(s: Seq<char>) -> Seq<char>
    decreases s.len(),
    via root_directory_name_decreases
{
    let trimmed = trim_slashes(s);
    let segment = trimmed.skip(segment_start(trimmed));
    if segment == "."@ {
        root_directory_name(trimmed.subrange(0, segment_start(trimmed)))
    } else if segment == ".."@ {
        Seq::empty()
    } else {
        segment
    }
}

#[via_fn]
proof fn root_directory_name_decreases(s: Seq<char>) {
    lemma_trim_slashes_bounds(s);
    let trimmed = trim_slashes(s);
    lemma_segment_start_bounds(trimmed);
    let segment = trimmed.skip(segment_start(trimmed));
    if segment == "."@ {
        reveal_strlit(".");
        assert(segment.len() == 1);
    }
}

/// A usize shifted by a signed delta; the mathematical result must fit.
fn shift_offset(base: usize, delta: isize) -> (r: usize)
    requires
        0 <= base + delta <= usize::MAX,
    ensures
        r == base + delta,
{
    if delta >= 0 {
        base + (delta as usize)
    } else {
        let magnitude = ((-(delta + 1)) as usize) + 1;
        base - magnitude
    }
}

/// Relies on `Rc::ptr_eq`: handles to the very same allocation carry the
/// same file. Nothing is assumed when the allocations differ.
#[verifier::external_body]
fn same_file_instance(a: &Rc<FileInfo>, b: &Rc<FileInfo>) -> (r: bool)
    ensures
        r ==> *a == *b,
{
    Rc::ptr_eq(a, b)
}

impl PartialEq for ItemLocation {
    /// Two spans are equal only when they have equal bounds and reference
    /// the very same file instance — deliberately stricter than comparing
    /// file paths. The verifier's model cannot see which allocation holds a
    /// file, so `eq_spec` below is only an upper bound and nothing is
    /// promised of `==` in contracts.
    fn eq(&self, other: &Self) -> (r: bool) {
        self.start == other.start && self.end == other.end && same_file_instance(
            &self.file,
            &other.file,
        )
    }
}

impl vstd::std_specs::cmp::PartialEqSpecImpl for ItemLocation {
    open spec fn obeys_eq_spec() -> bool {
        false
    }

    open spec fn eq_spec(&self, other: &Self) -> bool {
        self.start == other.start && self.end == other.end && self.file == other.file
    }
}

} // verus!
