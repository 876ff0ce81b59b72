//! The scanner: a mutable cursor over one immutable source text, with
//! literal and regex matching anchored at the cursor, whitespace and
//! line-comment elision, backtracking by saved offsets, and furthest-failure
//! expectation tracking.

use vstd::prelude::*;
use std::rc::Rc;
use crate::file_info::{FileInfo, clone_file_handle};
use crate::item_location::ItemLocation;
use crate::marker_list::{
    MarkerList, MarkerView, marker_find_id, marker_get, marker_remove, marker_top_index,
};
use crate::parse_error::ParseError;
use crate::parsable::Parsable;
use vstd::string::StringExecFns;

verus! {

/// Configuration of one parse invocation.
pub struct ParseOptions {
    pub file_path: Option<String>,
    pub package_root_path: Option<String>,
    pub comment_start: Option<&'static str>,
}

pub struct StringReader {
    comment_token: &'static str,
    file: Rc<FileInfo>,
    index: usize,
    error_index: usize,
    expected: Vec<String>,
    markers: MarkerList,
}

// ---------------------------------------------------------------------------
// Character classes and cursor-movement specifications
// ---------------------------------------------------------------------------
pub open spec fn spec_is_space(c: char) -> bool {
    c == ' ' || c == '\n' || c == '\t'
}

pub open spec fn spec_is_inline_space(c: char) -> bool {
    c == ' ' || c == '\t'
}

pub open spec fn spec_is_alphanum(c: char) -> bool {
    ('0' <= c && c <= '9') || ('a' <= c && c <= 'z') || ('A' <= c && c <= 'Z') || c == '_'
}

pub open spec fn all_alphanum(s: Seq<char>) -> bool {
    forall|i: int| 0 <= i < s.len() ==> spec_is_alphanum(#[trigger] s[i])
}

pub open spec fn is_prefix_of(p: Seq<char>, s: Seq<char>) -> bool {
    p.len() <= s.len() && p == s.subrange(0, p.len() as int)
}

/// The first offset at or after `i` that does not hold a space character.
pub open spec fn skip_spaces_from(text: Seq<char>, i: int) -> int
    decreases text.len() - i,
{
    if 0 <= i < text.len() && spec_is_space(text[i]) {
        skip_spaces_from(text, i + 1)
    } else {
        i
    }
}

/// The offset of the next newline at or after `i`, or the end of the text.
pub open spec fn skip_to_line_end(text: Seq<char>, i: int) -> int
    decreases text.len() - i,
{
    if 0 <= i < text.len() && text[i] != '\n' {
        skip_to_line_end(text, i + 1)
    } else {
        i
    }
}

proof fn lemma_skip_spaces_props(text: Seq<char>, i: int)
    requires
        0 <= i <= text.len(),
    ensures
        i <= skip_spaces_from(text, i) <= text.len(),
        skip_spaces_from(text, i) < text.len() ==> !spec_is_space(
            text[skip_spaces_from(text, i)],
        ),
        skip_spaces_from(text, skip_spaces_from(text, i)) == skip_spaces_from(text, i),
    decreases text.len() - i,
{
    if i < text.len() && spec_is_space(text[i]) {
        lemma_skip_spaces_props(text, i + 1);
    }
}

proof fn lemma_skip_to_line_end_props(text: Seq<char>, i: int)
    requires
        0 <= i <= text.len(),
    ensures
        i <= skip_to_line_end(text, i) <= text.len(),
        i < text.len() && text[i] != '\n' ==> skip_to_line_end(text, i) > i,
    decreases text.len() - i,
{
    if i < text.len() && text[i] != '\n' {
        lemma_skip_to_line_end_props(text, i + 1);
    }
}

/// Where the cursor lands when spaces and line comments are skipped from
/// `i`: spaces are consumed, then a comment token at the cursor consumes the
/// rest of its line, and the two steps repeat until neither advances.
pub open spec fn skip_insignificant_from(text: Seq<char>, comment: Seq<char>, i: int) -> int
    decreases text.len() - i,
    when 0 <= i <= text.len()
    via skip_insignificant_decreases
{
    let j = skip_spaces_from(text, i);
    if comment.len() > 0 && j < text.len() && is_prefix_of(comment, text.skip(j)) {
        skip_insignificant_from(text, comment, skip_to_line_end(text, j))
    } else {
        j
    }
}

#[via_fn]
proof fn skip_insignificant_decreases(text: Seq<char>, comment: Seq<char>, i: int) {
    lemma_skip_spaces_props(text, i);
    let j = skip_spaces_from(text, i);
    if comment.len() > 0 && j < text.len() && is_prefix_of(comment, text.skip(j)) {
        lemma_skip_to_line_end_props(text, j);
    }
}

/// Properties of the skip fixpoint: it only moves forward, stays in bounds,
/// and lands where neither spaces nor a comment token remain to skip.
pub proof fn lemma_skip_insignificant_props(text: Seq<char>, comment: Seq<char>, i: int)
    requires
        0 <= i <= text.len(),
    ensures
        i <= skip_insignificant_from(text, comment, i) <= text.len(),
        ({
            let r = skip_insignificant_from(text, comment, i);
            &&& skip_spaces_from(text, r) == r
            &&& !(comment.len() > 0 && r < text.len() && is_prefix_of(comment, text.skip(r)))
        }),
    decreases text.len() - i,
{
    lemma_skip_spaces_props(text, i);
    let j = skip_spaces_from(text, i);
    if comment.len() > 0 && j < text.len() && is_prefix_of(comment, text.skip(j)) {
        lemma_skip_to_line_end_props(text, j);
        lemma_skip_insignificant_props(text, comment, skip_to_line_end(text, j));
    }
}

/// Skipping insignificant bytes is idempotent: a second pass from the landing
/// point does not move.
pub proof fn lemma_skip_insignificant_idempotent(text: Seq<char>, comment: Seq<char>, i: int)
    requires
        0 <= i <= text.len(),
    ensures
        skip_insignificant_from(text, comment, skip_insignificant_from(text, comment, i))
            == skip_insignificant_from(text, comment, i),
{
    lemma_skip_insignificant_props(text, comment, i);
}

/// The offset backed up over the space run that ends at `i`.
pub open spec fn back_over_spaces(text: Seq<char>, i: int) -> int
    decreases i,
{
    if 0 < i <= text.len() && spec_is_space(text[i - 1]) {
        back_over_spaces(text, i - 1)
    } else {
        i
    }
}

/// The offset moved forward over inline spaces (no newlines) from `i`.
pub open spec fn forward_over_inline_spaces(text: Seq<char>, i: int) -> int
    decreases text.len() - i,
{
    if 0 <= i < text.len() && spec_is_inline_space(text[i]) {
        forward_over_inline_spaces(text, i + 1)
    } else {
        i
    }
}

/// The offset a diagnostic points at for a failure recorded at `i`: backed
/// up past trailing whitespace and, when that moved, forward again past
/// inline whitespace, landing on the first meaningful column.
pub open spec fn error_report_index(text: Seq<char>, i: int) -> int {
    let b = back_over_spaces(text, i);
    if b < i {
        forward_over_inline_spaces(text, b)
    } else {
        i
    }
}

proof fn lemma_back_over_spaces_props(text: Seq<char>, i: int)
    requires
        0 <= i <= text.len(),
    ensures
        0 <= back_over_spaces(text, i) <= i,
    decreases i,
{
    if 0 < i && spec_is_space(text[i - 1]) {
        lemma_back_over_spaces_props(text, i - 1);
    }
}

proof fn lemma_forward_over_inline_props(text: Seq<char>, i: int)
    requires
        0 <= i <= text.len(),
    ensures
        i <= forward_over_inline_spaces(text, i) <= text.len(),
    decreases text.len() - i,
{
    if i < text.len() && spec_is_inline_space(text[i]) {
        lemma_forward_over_inline_props(text, i + 1);
    }
}

/// The reported index never leaves the text.
pub proof fn lemma_error_report_index_bounds(text: Seq<char>, i: int)
    requires
        0 <= i <= text.len(),
    ensures
        0 <= error_report_index(text, i) <= text.len(),
{
    lemma_back_over_spaces_props(text, i);
    lemma_forward_over_inline_props(text, back_over_spaces(text, i));
}

/// Whether a literal matches at offset `i`: it must be a prefix of the
/// remaining text, non-empty, and — when it consists only of identifier
/// characters — not be continued by another identifier character.
pub open spec fn lit_match_at(lit: Seq<char>, text: Seq<char>, i: int) -> bool {
    &&& is_prefix_of(lit, text.skip(i))
    &&& lit.len() > 0
    &&& !(all_alphanum(lit) && i + lit.len() < text.len() && spec_is_alphanum(
        text[i + lit.len()],
    ))
}

/// A keyword-like literal (identifier characters only) does not match where
/// the input continues with another identifier character.
pub proof fn lemma_keyword_literal_requires_boundary(
    lit: Seq<char>,
    tail: Seq<char>,
    text: Seq<char>,
)
    requires
        lit.len() > 0,
        all_alphanum(lit),
        tail.len() > 0,
        spec_is_alphanum(tail[0]),
        text == lit + tail,
    ensures
        !lit_match_at(lit, text, 0),
{
    assert(text[lit.len() as int] == tail[0]);
}

/// A literal holding any non-identifier character matches wherever it is a
/// prefix of the remaining text, whatever follows it.
pub proof fn lemma_symbol_literal_prefix_suffices(lit: Seq<char>, text: Seq<char>, i: int)
    requires
        lit.len() > 0,
        !all_alphanum(lit),
        is_prefix_of(lit, text.skip(i)),
    ensures
        lit_match_at(lit, text, i),
{
}

// ---------------------------------------------------------------------------
// Furthest-failure tracker specification
// ---------------------------------------------------------------------------
/// The tracker state after recording `label` at offset `at`: recording at
/// the current furthest offset accumulates, a strictly further offset resets
/// the list, and a nearer offset is discarded.
pub open spec fn tracker_record(
    err: int,
    labels: Seq<Seq<char>>,
    at: int,
    label: Seq<char>,
) -> (int, Seq<Seq<char>>) {
    if at == err {
        (err, labels.push(label))
    } else if at > err {
        (at, seq![label])
    } else {
        (err, labels)
    }
}

/// The tracker keeps only the furthest failure: recording first at `a`, then
/// at a strictly greater `b`, leaves exactly the expectation recorded at `b`.
pub proof fn lemma_furthest_failure_wins(
    err: int,
    labels: Seq<Seq<char>>,
    a: int,
    b: int,
    la: Seq<char>,
    lb: Seq<char>,
)
    requires
        err <= a,
        a < b,
    ensures
        ({
            let s1 = tracker_record(err, labels, a, la);
            tracker_record(s1.0, s1.1, b, lb) == (b, seq![lb])
        }),
{
}

/// The diagnostic label of a literal expectation: the literal in quotes.
pub open spec fn quoted_label(s: Seq<char>) -> Seq<char> {
    "\""@ + s + "\""@
}

/// The diagnostic label of a regex expectation: the pattern in slashes.
pub open spec fn slashed_label(s: Seq<char>) -> Seq<char> {
    "/"@ + s + "/"@
}

// ---------------------------------------------------------------------------
// The regex primitive (outside engine)
// ---------------------------------------------------------------------------
/// Whether the regex engine accepts the pattern, anchored as `^(pattern)`.
pub uninterp spec fn regex_pattern_ok(pattern: Seq<char>) -> bool;

/// The character offset at which the leftmost match of the anchored pattern
/// `^(pattern)` ends, or `None` when it does not match. For an ordinary
/// pattern the anchor pins the match to the start of the text, so this is
/// the length of the matched prefix; a pattern that closes the anchoring
/// group itself can match elsewhere, and the name then still denotes where
/// the engine's leftmost match ends.
pub uninterp spec fn anchored_match_len(pattern: Seq<char>, text: Seq<char>) -> Option<int>;

/// The match the scanner acts on: the anchored match of the pattern against
/// the remaining text, or `None` when the pattern does not match there or
/// the engine rejects it.
pub open spec fn anchored_match_at_cursor(pattern: Seq<char>, remaining: Seq<char>) -> Option<
    int,
> {
    if regex_pattern_ok(pattern) {
        anchored_match_len(pattern, remaining)
    } else {
        None
    }
}

/// Relies on `regex::Regex::new` and `regex::Regex::find`: whether the
/// pattern, anchored as `^(pattern)`, compiles, and where its leftmost
/// match ends, depend on the pattern and the text alone. A pattern the
/// engine rejects yields no match.
#[verifier::external_body]
fn regex_prefix_match(pattern: &str, text: &str) -> (r: Option<usize>)
    ensures
        !regex_pattern_ok(pattern@) ==> r is None,
        regex_pattern_ok(pattern@) ==> ((r is Some <==> anchored_match_len(pattern@, text@)
            is Some) && (r matches Some(n) ==> anchored_match_len(pattern@, text@) == Some(
            n as int,
        ) && n <= text@.len())),
{
    let re = match regex::Regex::new(&format!("^({})", pattern)) {
        Ok(re) => re,
        Err(_) => return None,
    };
    match re.find(text) {
        Some(m) => Some(text[..m.end()].chars().count()),
        None => None,
    }
}

/// `post` is `pre` with `label` recorded at `pre`'s cursor and nothing else
/// changed.
pub open spec fn records_expectation(
    pre: StringReader,
    post: StringReader,
    label: Seq<char>,
) -> bool {
    &&& post.err_index() == tracker_record(
        pre.err_index(),
        pre.expectations(),
        pre.cursor(),
        label,
    ).0
    &&& post.expectations() == tracker_record(
        pre.err_index(),
        pre.expectations(),
        pre.cursor(),
        label,
    ).1
    &&& post.same_source(pre)
    &&& post.cursor() == pre.cursor()
    &&& post.marker_stack() == pre.marker_stack()
    &&& post.next_marker_id() == pre.next_marker_id()
    &&& post.wf() == pre.wf()
}

/// The tracker only moves forward between two reader states: the furthest
/// failure offset never shrinks, and while it stands still the recorded
/// labels are only appended to.
pub open spec fn tracker_extends(pre: StringReader, post: StringReader) -> bool {
    &&& pre.err_index() <= post.err_index()
    &&& post.err_index() == pre.err_index() ==> pre.expectations().len()
        <= post.expectations().len() && pre.expectations() == post.expectations().subrange(
        0,
        pre.expectations().len() as int,
    )
}

/// Recording one expectation extends the tracker.
pub broadcast proof fn lemma_records_expectation_extends(
    pre: StringReader,
    post: StringReader,
    label: Seq<char>,
)
    requires
        #[trigger] records_expectation(pre, post, label),
    ensures
        tracker_extends(pre, post),
{
    if pre.cursor() == pre.err_index() {
        assert(pre.expectations() =~= post.expectations().subrange(
            0,
            pre.expectations().len() as int,
        ));
    } else if pre.cursor() < pre.err_index() {
        assert(pre.expectations() =~= post.expectations().subrange(
            0,
            pre.expectations().len() as int,
        ));
    }
}

/// An untouched tracker extends itself.
pub broadcast proof fn lemma_tracker_unchanged_extends(pre: StringReader, post: StringReader)
    requires
        pre.err_index() == post.err_index(),
        pre.expectations() == post.expectations(),
    ensures
        #[trigger] tracker_extends(pre, post),
{
    assert(pre.expectations() =~= post.expectations().subrange(
        0,
        pre.expectations().len() as int,
    ));
}

/// Tracker extension composes across successive calls.
pub broadcast proof fn lemma_tracker_extends_trans(
    a: StringReader,
    b: StringReader,
    c: StringReader,
)
    requires
        tracker_extends(a, b),
        tracker_extends(b, c),
    ensures
        #![trigger tracker_extends(a, b), tracker_extends(b, c)]
        tracker_extends(a, c),
{
    if c.err_index() == a.err_index() {
        let la = a.expectations().len() as int;
        assert(a.expectations() =~= c.expectations().subrange(0, la)) by {
            assert forall|i: int| 0 <= i < la implies a.expectations()[i] == c.expectations()
                .subrange(0, la)[i] by {
                assert(a.expectations()[i] == b.expectations().subrange(
                    0,
                    la,
                )[i]);
                assert(b.expectations()[i] == c.expectations().subrange(
                    0,
                    b.expectations().len() as int,
                )[i]);
            }
        }
    }
}

// ---------------------------------------------------------------------------
// The scanner itself
// ---------------------------------------------------------------------------
impl StringReader {
    /// The characters of the source text.
    pub closed spec fn text(&self) -> Seq<char> {
        self.file.content@
    }

    /// The configured line-comment token; empty when comments are disabled.
    pub closed spec fn comment(&self) -> Seq<char> {
        self.comment_token@
    }

    /// The current cursor offset.
    pub closed spec fn cursor(&self) -> int {
        self.index as int
    }

    /// The furthest offset a failure was recorded at.
    pub closed spec fn err_index(&self) -> int {
        self.error_index as int
    }

    /// The expectation labels recorded at the furthest failure offset.
    pub closed spec fn expectations(&self) -> Seq<Seq<char>> {
        self.expected.deep_view()
    }

    /// The marker stack.
    pub closed spec fn marker_stack(&self) -> Seq<MarkerView> {
        self.markers@
    }

    /// The id the next declared marker will get.
    pub closed spec fn next_marker_id(&self) -> u64 {
        self.markers.next_id()
    }

    /// The handle of the file being read.
    pub closed spec fn file_handle(&self) -> Rc<FileInfo> {
        self.file
    }

    /// The diagnostic path label of the file being read.
    pub closed spec fn file_path(&self) -> Seq<char> {
        self.file.path@
    }

    /// Two reader states over the same file and comment configuration.
    pub open spec fn same_source(self, other: StringReader) -> bool {
        &&& self.file_handle() == other.file_handle()
        &&& self.comment() == other.comment()
    }

    /// Cursor and failure offset lie within the text, and the file's index
    /// and the marker ids are intact.
    pub closed spec fn wf(&self) -> bool {
        &&& self.file.wf()
        &&& self.index <= self.file.content@.len()
        &&& self.error_index <= self.file.content@.len()
        &&& self.markers.wf()
    }

    pub fn new(content: String, options: ParseOptions) -> (r: Self)
        requires
            content@.len() < usize::MAX,
        ensures
            r.wf(),
            r.text() == content@,
            r.cursor() == 0,
            r.err_index() == 0,
            r.expectations() == Seq::<Seq<char>>::empty(),
            r.marker_stack() == Seq::<MarkerView>::empty(),
            r.comment() == (match options.comment_start {
                Some(c) => c@,
                None => Seq::<char>::empty(),
            }),
            r.file_path() == (match options.file_path {
                Some(p) => p@,
                None => Seq::<char>::empty(),
            }),
            r.file_handle().content@ == content@,
            r.file_handle().package_root_path@ == (match options.package_root_path {
                Some(p) => p@,
                None => Seq::<char>::empty(),
            }),
    {
        let comment_token = match options.comment_start {
            Some(c) => c,
            None => "",
        };
        let path = match options.file_path {
            Some(p) => p,
            None => String::new(),
        };
        let package_root_path = match options.package_root_path {
            Some(p) => p,
            None => String::new(),
        };
        proof {
            reveal_strlit("");
        }
        let r = Self {
            comment_token,
            file: Rc::new(FileInfo::new(content, path, package_root_path)),
            index: 0,
            error_index: 0,
            expected: Vec::new(),
            markers: MarkerList::new(),
        };
        proof {
            assert(r.expectations() =~= Seq::<Seq<char>>::empty());
        }
        r
    }

    /// The whole source text.
    fn content(&self) -> (r: &str)
        ensures
            r@ == self.text(),
    {
        self.file.content.as_str()
    }

    /// The character at absolute offset `i` of the text.
    fn char_at(&self, i: usize) -> (r: char)
        requires
            i < self.text().len(),
        ensures
            r == self.text()[i as int],
    {
        self.file.content.as_str().get_char(i)
    }

    /// The length of the whole text.
    fn text_len(&self) -> (r: usize)
        ensures
            r == self.text().len(),
    {
        self.file.content.as_str().unicode_len()
    }

    pub fn is_finished(&self) -> (r: bool)
        ensures
            r == (self.cursor() == self.text().len()),
    {
        self.index == self.text_len()
    }

    pub fn get_index(&self) -> (r: usize)
        ensures
            r as int == self.cursor(),
    {
        self.index
    }

    /// The diagnostic path label of the file being read.
    pub fn get_file_path(&self) -> (r: &str)
        ensures
            r@ == self.file_path(),
    {
        self.file.path.as_str()
    }

    /// Restore the cursor to a previously saved offset.
    pub fn set_index(&mut self, index: usize)
        requires
            old(self).wf(),
            index <= old(self).text().len(),
        ensures
            final(self).wf(),
            final(self).same_source(*old(self)),
            final(self).cursor() == index,
            final(self).err_index() == old(self).err_index(),
            final(self).expectations() == old(self).expectations(),
            final(self).marker_stack() == old(self).marker_stack(),
            final(self).next_marker_id() == old(self).next_marker_id(),
    {
        self.index = index;
    }
}

/// The cursor and failure offsets of a well-formed reader lie in its text.
pub broadcast proof fn lemma_reader_wf_bounds(r: StringReader)
    requires
        #[trigger] r.wf(),
    ensures
        0 <= r.cursor() <= r.text().len(),
        0 <= r.err_index() <= r.text().len(),
{
}

/// The text and path of a reader are those of its file handle, so readers
/// over the same handle read the same text.
pub broadcast proof fn lemma_reader_views(r: StringReader)
    ensures
        #[trigger] r.text() == r.file_handle().content@,
        r.file_path() == r.file_handle().path@,
{
}

// ---------------------------------------------------------------------------
// Character classes (executable)
// ---------------------------------------------------------------------------
fn is_space(c: char) -> (r: bool)
    ensures
        r == spec_is_space(c),
{
    c == ' ' || c == '\n' || c == '\t'
}

fn is_inline_space(c: char) -> (r: bool)
    ensures
        r == spec_is_inline_space(c),
{
    c == ' ' || c == '\t'
}

fn is_alphanum(c: char) -> (r: bool)
    ensures
        r == spec_is_alphanum(c),
{
    ('0' <= c && c <= '9') || ('a' <= c && c <= 'z') || ('A' <= c && c <= 'Z') || c == '_'
}

fn is_string_alphanum(string: &str) -> (r: bool)
    ensures
        r == all_alphanum(string@),
{
    let len = string.unicode_len();
    let mut i: usize = 0;

    while i < len
        invariant
            len == string@.len(),
            i <= len,
            forall|j: int| 0 <= j < i ==> spec_is_alphanum(#[trigger] string@[j]),
        decreases len - i,
    {
        if !is_alphanum(string.get_char(i)) {
            return false;
        }
        i = i + 1;
    }
    true
}

/// Whether `prefix` occurs in `text` at offset `at`.
fn str_starts_with_at(text: &str, prefix: &str, at: usize) -> (r: bool)
    requires
        at <= text@.len(),
    ensures
        r == is_prefix_of(prefix@, text@.skip(at as int)),
{
    let n = prefix.unicode_len();
    let len = text.unicode_len();

    if n > len - at {
        return false;
    }
    let mut i: usize = 0;
    while i < n
        invariant
            n == prefix@.len(),
            len == text@.len(),
            at + n <= len,
            i <= n,
            forall|j: int| 0 <= j < i ==> prefix@[j] == text@[at + j],
        decreases n - i,
    {
        if text.get_char(at + i) != prefix.get_char(i) {
            proof {
                assert(text@.skip(at as int)[i as int] == text@[at + i]);
                assert(!is_prefix_of(prefix@, text@.skip(at as int))) by {
                    if is_prefix_of(prefix@, text@.skip(at as int)) {
                        assert(prefix@[i as int] == text@.skip(at as int).subrange(
                            0,
                            n as int,
                        )[i as int]);
                    }
                }
            }
            return false;
        }
        i = i + 1;
    }
    proof {
        assert(prefix@ =~= text@.skip(at as int).subrange(0, n as int));
    }
    true
}

// ---------------------------------------------------------------------------
// Cursor movement and matching
// ---------------------------------------------------------------------------
impl StringReader {
    /// Advance the cursor past spaces and line comments, repeating until
    /// neither applies. Never fails; moves the cursor only.
    pub fn eat_spaces(&mut self)
        requires
            old(self).wf(),
        ensures
            final(self).wf(),
            final(self).same_source(*old(self)),
            final(self).err_index() == old(self).err_index(),
            final(self).expectations() == old(self).expectations(),
            final(self).marker_stack() == old(self).marker_stack(),
            final(self).next_marker_id() == old(self).next_marker_id(),
            final(self).cursor() == skip_insignificant_from(
                old(self).text(),
                old(self).comment(),
                old(self).cursor(),
            ),
            old(self).cursor() <= final(self).cursor() <= old(self).text().len(),
    {
        let ghost text = self.text();
        let ghost comment = self.comment();
        let ghost orig = self.cursor();
        let len = self.text_len();

        proof {
            lemma_skip_insignificant_props(text, comment, orig);
        }
        loop
            invariant
                self.wf(),
                self.same_source(*old(self)),
                self.err_index() == old(self).err_index(),
                self.expectations() == old(self).expectations(),
                self.marker_stack() == old(self).marker_stack(),
                self.next_marker_id() == old(self).next_marker_id(),
                text == self.text(),
                comment == self.comment(),
                len == text.len(),
                orig <= self.cursor() <= text.len(),
                skip_insignificant_from(text, comment, self.cursor())
                    == skip_insignificant_from(text, comment, orig),
            ensures
                self.cursor() == skip_insignificant_from(text, comment, orig),
            decreases text.len() - self.cursor(),
        {
            let ghost entry = self.cursor();

            // First step: consume the run of space characters at the cursor.
            loop
                invariant
                    self.wf(),
                    self.same_source(*old(self)),
                    self.err_index() == old(self).err_index(),
                    self.expectations() == old(self).expectations(),
                    self.marker_stack() == old(self).marker_stack(),
                    self.next_marker_id() == old(self).next_marker_id(),
                    text == self.text(),
                    comment == self.comment(),
                    len == text.len(),
                    entry <= self.cursor() <= text.len(),
                    skip_spaces_from(text, self.cursor()) == skip_spaces_from(text, entry),
                ensures
                    skip_spaces_from(text, self.cursor()) == self.cursor(),
                decreases text.len() - self.cursor(),
            {
                if self.index >= len {
                    break;
                }
                let c = self.char_at(self.index);
                if !is_space(c) {
                    break;
                }
                self.index = self.index + 1;
            }
            proof {
                assert(skip_spaces_from(text, self.cursor()) == self.cursor());
                assert(skip_insignificant_from(text, comment, entry)
                    == skip_insignificant_from(text, comment, self.cursor())) by {
                    lemma_skip_spaces_props(text, entry);
                }
            }

            // Second step: a comment token at the cursor consumes its line.
            let at_comment = self.index < len && !self.comment_token.is_empty()
                && str_starts_with_at(self.content(), self.comment_token, self.index);
            if at_comment {
                let ghost j = self.cursor();
                loop
                    invariant
                        self.wf(),
                        self.same_source(*old(self)),
                        self.err_index() == old(self).err_index(),
                        self.expectations() == old(self).expectations(),
                        self.marker_stack() == old(self).marker_stack(),
                        self.next_marker_id() == old(self).next_marker_id(),
                        text == self.text(),
                        comment == self.comment(),
                        len == text.len(),
                        j <= self.cursor() <= text.len(),
                        skip_to_line_end(text, self.cursor()) == skip_to_line_end(text, j),
                    ensures
                        skip_to_line_end(text, self.cursor()) == self.cursor(),
                    decreases text.len() - self.cursor(),
                {
                    if self.index >= len {
                        break;
                    }
                    let c = self.char_at(self.index);
                    if c == '\n' {
                        break;
                    }
                    self.index = self.index + 1;
                }
                proof {
                    assert(skip_to_line_end(text, self.cursor()) == self.cursor());
                    // The comment token starts with a non-space character, so
                    // skipping its line strictly advances the cursor.
                    lemma_skip_spaces_props(text, entry);
                    assert(!spec_is_space(text[j]));
                    lemma_skip_to_line_end_props(text, j);
                    assert(skip_insignificant_from(text, comment, j)
                        == skip_insignificant_from(text, comment, self.cursor()));
                    assert(self.cursor() > entry);
                }
            } else {
                proof {
                    assert(skip_insignificant_from(text, comment, self.cursor())
                        == self.cursor());
                }
                break;
            }
        }
    }

    /// Consume `length` characters and return them; consuming zero
    /// characters yields nothing and leaves the reader untouched.
    pub fn advance(&mut self, length: usize) -> (r: Option<&str>)
        requires
            old(self).wf(),
            old(self).cursor() + length <= old(self).text().len(),
        ensures
            final(self).wf(),
            final(self).same_source(*old(self)),
            final(self).err_index() == old(self).err_index(),
            final(self).expectations() == old(self).expectations(),
            final(self).marker_stack() == old(self).marker_stack(),
            final(self).next_marker_id() == old(self).next_marker_id(),
            length == 0 ==> r is None && final(self).cursor() == old(self).cursor(),
            length > 0 ==> final(self).cursor() == old(self).cursor() + length && (
            r matches Some(s) && s@ == old(self).text().subrange(
                old(self).cursor(),
                old(self).cursor() + length,
            )),
    {
        if length == 0 {
            return None;
        }
        let start = self.index;
        let end = self.index + length;

        self.index = end;
        Some(self.file.content.as_str().substring_char(start, end))
    }

    /// The text from the cursor to the end.
    pub fn as_str(&self) -> (r: &str)
        requires
            self.wf(),
        ensures
            r@ == self.text().skip(self.cursor()),
    {
        let len = self.text_len();
        let s = self.file.content.as_str().substring_char(self.index, len);
        proof {
            assert(s@ =~= self.text().skip(self.cursor()));
        }
        s
    }

    /// The character at the cursor, or the null character at the end.
    pub fn as_char(&self) -> (r: char)
        requires
            self.wf(),
        ensures
            r == (if self.cursor() < self.text().len() {
                self.text()[self.cursor()]
            } else {
                '\0'
            }),
    {
        let len = self.text_len();
        if self.index < len {
            self.char_at(self.index)
        } else {
            '\0'
        }
    }

    /// Lookahead: the character `index` places after the cursor, or the null
    /// character when that falls outside the text.
    pub fn at(&self, index: usize) -> (r: char)
        requires
            self.wf(),
        ensures
            r == (if self.cursor() + index < self.text().len() {
                self.text()[self.cursor() + index]
            } else {
                '\0'
            }),
    {
        let len = self.text_len();
        if index < len - self.index {
            self.char_at(self.index + index)
        } else {
            '\0'
        }
    }

    /// Match a literal at the cursor. A literal made only of identifier
    /// characters also requires an identifier boundary after it, so a
    /// keyword does not match a prefix of a longer identifier.
    pub fn read_string(&mut self, string: &str) -> (r: Option<&str>)
        requires
            old(self).wf(),
        ensures
            final(self).wf(),
            final(self).same_source(*old(self)),
            final(self).err_index() == old(self).err_index(),
            final(self).expectations() == old(self).expectations(),
            final(self).marker_stack() == old(self).marker_stack(),
            final(self).next_marker_id() == old(self).next_marker_id(),
            lit_match_at(string@, old(self).text(), old(self).cursor()) ==> final(self).cursor()
                == old(self).cursor() + string@.len() && (r matches Some(s) && s@ == string@),
            !lit_match_at(string@, old(self).text(), old(self).cursor()) ==> r is None
                && final(self).cursor() == old(self).cursor(),
    {
        let ghost text = self.text();
        let ghost cur = self.cursor();
        let len_s = string.unicode_len();

        if !str_starts_with_at(self.content(), string, self.index) {
            return None;
        }
        if is_string_alphanum(string) {
            let next = self.at(len_s);
            if is_alphanum(next) {
                return None;
            }
        }
        if len_s == 0 {
            return None;
        }
        proof {
            assert(lit_match_at(string@, text, cur));
        }
        let r = self.advance(len_s);
        proof {
            assert(string@ =~= text.skip(cur).subrange(0, len_s as int));
            assert(text.subrange(cur, cur + len_s) =~= text.skip(cur).subrange(0, len_s as int));
        }
        r
    }

    /// Consume as many characters as the supplied measure, applied once to
    /// the remaining text, asks for: a zero measure consumes nothing and
    /// yields nothing, a positive one consumes and returns that prefix. The
    /// measure must be callable on the remaining text and must not ask for
    /// more characters than it holds.
    pub fn read_function<F: Fn(&str) -> usize>(&mut self, f: F) -> (r: Option<&str>)
        requires
            old(self).wf(),
            forall|s: &str|
                s@ == old(self).text().skip(old(self).cursor()) ==> #[trigger] f.requires((s,)),
            forall|s: &str, n: usize|
                s@ == old(self).text().skip(old(self).cursor()) && #[trigger] f.ensures((s,), n)
                    ==> n <= s@.len(),
        ensures
            final(self).wf(),
            final(self).same_source(*old(self)),
            final(self).err_index() == old(self).err_index(),
            final(self).expectations() == old(self).expectations(),
            final(self).marker_stack() == old(self).marker_stack(),
            final(self).next_marker_id() == old(self).next_marker_id(),
            exists|s: &str, n: usize|
                {
                    &&& s@ == old(self).text().skip(old(self).cursor())
                    &&& #[trigger] f.ensures((s,), n)
                    &&& n == 0 ==> r is None && final(self).cursor() == old(self).cursor()
                    &&& n > 0 ==> final(self).cursor() == old(self).cursor() + n && (
                    r matches Some(t) && t@ == old(self).text().subrange(
                        old(self).cursor(),
                        old(self).cursor() + n,
                    ))
                },
    {
        let remaining = self.as_str();
        let n = f(remaining);
        let ghost s_wit = remaining;
        let ghost n_wit = n;
        let r = self.advance(n);
        proof {
            assert(f.ensures((s_wit,), n_wit));
        }
        r
    }

    /// The cursor backed up over the trailing space run, so that a freshly
    /// minted span does not swallow skipped whitespace.
    pub fn get_index_backtracked(&self) -> (r: usize)
        requires
            self.wf(),
        ensures
            r as int == back_over_spaces(self.text(), self.cursor()),
    {
        let ghost text = self.text();
        let mut index = self.index;

        loop
            invariant
                self.wf(),
                text == self.text(),
                0 <= index <= self.cursor(),
                back_over_spaces(text, index as int) == back_over_spaces(text, self.cursor()),
            ensures
                back_over_spaces(text, index as int) == index as int,
            decreases index,
        {
            if index == 0 {
                break;
            }
            let c = self.char_at(index - 1);
            if !is_space(c) {
                break;
            }
            index = index - 1;
        }
        index
    }

    /// Record that a regex was expected at the cursor, labelled `/pattern/`.
    pub fn set_expected_regex(&mut self, expected: &'static str)
        requires
            old(self).wf(),
        ensures
            final(self).wf(),
            records_expectation(*old(self), *final(self), slashed_label(expected@)),
    {
        let mut label = String::from_str("/");
        label.append(expected);
        label.append("/");
        self.set_expected_entity(label);
    }

    /// Record that a literal was expected at the cursor, labelled with the
    /// quoted literal; an empty literal records nothing.
    pub fn set_expected_string(&mut self, expected: &'static str)
        requires
            old(self).wf(),
        ensures
            final(self).wf(),
            expected@.len() > 0 ==> records_expectation(
                *old(self),
                *final(self),
                quoted_label(expected@),
            ),
            expected@.len() == 0 ==> *final(self) == *old(self),
    {
        if !expected.is_empty() {
            let mut label = String::from_str("\"");
            label.append(expected);
            label.append("\"");
            self.set_expected_entity(label);
        }
    }

    /// Record that an item of type `T` was expected at the cursor, labelled
    /// with the item's name.
    pub fn set_expected_item<T: Parsable>(&mut self)
        requires
            old(self).wf(),
        ensures
            final(self).wf(),
            exists|label: Seq<char>| #[trigger] records_expectation(
                *old(self),
                *final(self),
                label,
            ),
    {
        let name = T::get_item_name();
        let ghost label = name@;
        self.set_expected_entity(name);
        proof {
            assert(records_expectation(*old(self), *final(self), label));
        }
    }

    /// Record that the end of the input was expected at the cursor. This is
    /// the end-of-input item's name, recorded without going through the
    /// parsing contract.
    pub fn set_expected_end_of_input(&mut self)
        requires
            old(self).wf(),
        ensures
            final(self).wf(),
            records_expectation(*old(self), *final(self), "<EOF>"@),
    {
        self.set_expected_entity(String::from_str("<EOF>"));
    }

    /// The furthest-failure update: a label recorded at the current furthest
    /// offset accumulates, one strictly further resets the list, one nearer
    /// is discarded.
    pub(crate) fn set_expected_entity(&mut self, string_to_display: String)
        requires
            old(self).wf(),
        ensures
            final(self).wf(),
            records_expectation(*old(self), *final(self), string_to_display@),
    {
        let ghost label = string_to_display@;
        let ghost pre = self.expectations();

        if self.index == self.error_index {
            self.expected.push(string_to_display);
            proof {
                assert(self.expectations() =~= pre.push(label));
            }
        } else if self.index > self.error_index {
            let mut fresh: Vec<String> = Vec::new();
            fresh.push(string_to_display);
            self.expected = fresh;
            self.error_index = self.index;
            proof {
                assert(self.expectations() =~= seq![label]);
            }
        }
    }

    /// The terminal diagnostic: the failure offset backed out of trailing
    /// whitespace onto the first meaningful column, with the recorded
    /// expectations.
    pub fn get_error(&self) -> (r: ParseError)
        requires
            self.wf(),
        ensures
            r.index as int == error_report_index(self.text(), self.err_index()),
            r.index <= self.text().len(),
            r.expected.deep_view() == self.expectations(),
            r.file == self.file_handle(),
            r.file.wf(),
            r.file.content@ == self.text(),
            r.file.path@ == self.file_path(),
    {
        let ghost text = self.text();
        let len = self.text_len();
        let mut error_index = self.error_index;
        let mut backtracked = false;

        proof {
            lemma_back_over_spaces_props(text, self.err_index());
        }
        loop
            invariant
                self.wf(),
                text == self.text(),
                len == text.len(),
                0 <= error_index <= text.len(),
                error_index as int <= self.err_index(),
                back_over_spaces(text, error_index as int) == back_over_spaces(
                    text,
                    self.err_index(),
                ),
                backtracked == (error_index < self.err_index()),
            ensures
                error_index as int == back_over_spaces(text, self.err_index()),
                backtracked == (error_index < self.err_index()),
            decreases error_index,
        {
            if error_index == 0 {
                break;
            }
            let c = self.char_at(error_index - 1);
            if !is_space(c) {
                break;
            }
            error_index = error_index - 1;
            backtracked = true;
        }

        let ghost b = back_over_spaces(text, self.err_index());
        if backtracked {
            proof {
                lemma_forward_over_inline_props(text, b);
            }
            loop
                invariant
                    self.wf(),
                    text == self.text(),
                    len == text.len(),
                    0 <= error_index <= text.len(),
                    forward_over_inline_spaces(text, error_index as int)
                        == forward_over_inline_spaces(text, b),
                ensures
                    error_index as int == forward_over_inline_spaces(text, b),
                decreases text.len() - error_index,
            {
                if error_index >= len {
                    break;
                }
                let c = self.char_at(error_index);
                if !is_inline_space(c) {
                    break;
                }
                error_index = error_index + 1;
            }
            proof {
                lemma_forward_over_inline_props(text, b);
            }
        }

        // Copy the recorded expectation labels.
        let mut expected: Vec<String> = Vec::new();
        let count = self.expected.len();
        let mut i: usize = 0;
        while i < count
            invariant
                count == self.expected@.len(),
                i <= count,
                expected@.len() == i,
                forall|j: int| 0 <= j < i ==> #[trigger] expected@[j]@ == self.expected@[j]@,
            decreases count - i,
        {
            expected.push(self.expected[i].clone());
            i = i + 1;
        }
        proof {
            assert(expected.deep_view() =~= self.expectations());
        }

        ParseError { file: clone_file_handle(&self.file), index: error_index, expected }
    }

    /// The value of the most recently declared marker with this name, or
    /// `false` when none was declared.
    pub fn get_marker(&self, name: &'static str) -> (r: bool)
        ensures
            r == marker_get(self.marker_stack(), name@),
    {
        self.markers.get(name)
    }

    /// Declare a named flag, initially `true`; the returned id removes it.
    pub fn declare_marker(&mut self, name: &'static str) -> (id: u64)
        requires
            old(self).wf(),
            old(self).next_marker_id() < u64::MAX,
        ensures
            final(self).wf(),
            final(self).same_source(*old(self)),
            final(self).cursor() == old(self).cursor(),
            final(self).err_index() == old(self).err_index(),
            final(self).expectations() == old(self).expectations(),
            id == old(self).next_marker_id(),
            final(self).marker_stack() == old(self).marker_stack().push((name@, id, true)),
            final(self).next_marker_id() == old(self).next_marker_id() + 1,
    {
        self.markers.declare(name)
    }

    /// Remove the marker that `declare_marker` handed this id out for.
    pub fn remove_marker(&mut self, id: u64)
        requires
            old(self).wf(),
            marker_find_id(old(self).marker_stack(), id) >= 0,
        ensures
            final(self).wf(),
            final(self).same_source(*old(self)),
            final(self).cursor() == old(self).cursor(),
            final(self).err_index() == old(self).err_index(),
            final(self).expectations() == old(self).expectations(),
            final(self).marker_stack() == marker_remove(old(self).marker_stack(), id),
            final(self).next_marker_id() == old(self).next_marker_id(),
    {
        self.markers.remove(id);
    }

    /// Overwrite the most recent marker with this name and return its
    /// previous value; with no such marker, change nothing and return
    /// `false`.
    pub fn set_marker(&mut self, name: &'static str, value: bool) -> (r: bool)
        requires
            old(self).wf(),
        ensures
            final(self).wf(),
            final(self).same_source(*old(self)),
            final(self).cursor() == old(self).cursor(),
            final(self).err_index() == old(self).err_index(),
            final(self).expectations() == old(self).expectations(),
            final(self).next_marker_id() == old(self).next_marker_id(),
            ({
                let stack = old(self).marker_stack();
                let k = marker_top_index(stack, name@);
                if k >= 0 {
                    &&& r == stack[k].2
                    &&& final(self).marker_stack() == stack.update(
                        k,
                        (stack[k].0, stack[k].1, value),
                    )
                } else {
                    &&& r == false
                    &&& final(self).marker_stack() == stack
                }
            }),
    {
        self.markers.set(name, value)
    }

    /// Match a regex at the cursor: the pattern is anchored here and a
    /// match advances the cursor by its length. A zero-length match is
    /// legal: it succeeds with the empty slice and advances by zero. No
    /// match, or a pattern the regex engine rejects, consumes nothing and
    /// fails.
    pub fn read_regex(&mut self, pattern: &'static str) -> (r: Option<&str>)
        requires
            old(self).wf(),
        ensures
            final(self).wf(),
            final(self).same_source(*old(self)),
            final(self).err_index() == old(self).err_index(),
            final(self).expectations() == old(self).expectations(),
            final(self).marker_stack() == old(self).marker_stack(),
            final(self).next_marker_id() == old(self).next_marker_id(),
            ({
                let m = anchored_match_at_cursor(
                    pattern@,
                    old(self).text().skip(old(self).cursor()),
                );
                &&& m matches Some(n) ==> final(self).cursor() == old(self).cursor() + n && (
                r matches Some(s) && s@ == old(self).text().subrange(
                    old(self).cursor(),
                    old(self).cursor() + n,
                ))
                &&& m is None ==> r is None && final(self).cursor() == old(self).cursor()
            }),
    {
        let matched = regex_prefix_match(pattern, self.as_str());
        match matched {
            Some(n) => {
                if n > 0 {
                    self.advance(n)
                } else {
                    let empty = self.file.content.as_str().substring_char(self.index, self.index);
                    proof {
                        assert(empty@ =~= old(self).text().subrange(
                            old(self).cursor(),
                            old(self).cursor(),
                        ));
                    }
                    Some(empty)
                }
            },
            None => None,
        }
    }

    /// Report whether a regex matches at the cursor, without advancing.
    pub fn peek_regex(&mut self, pattern: &'static str) -> (r: bool)
        requires
            old(self).wf(),
        ensures
            *final(self) == *old(self),
            r == (regex_pattern_ok(pattern@) && anchored_match_len(
                pattern@,
                old(self).text().skip(old(self).cursor()),
            ) is Some),
    {
        let matched = regex_prefix_match(pattern, self.as_str());
        matched.is_some()
    }

    /// The span from `start` to the whitespace-backtracked cursor.
    pub fn get_item_location(&self, start: usize) -> (r: ItemLocation)
        requires
            self.wf(),
            start <= back_over_spaces(self.text(), self.cursor()),
        ensures
            r.wf(),
            r.file == self.file_handle(),
            r.start == start,
            r.end as int == back_over_spaces(self.text(), self.cursor()),
    {
        let end = self.get_index_backtracked();
        proof {
            lemma_back_over_spaces_props(self.text(), self.cursor());
        }
        ItemLocation { file: clone_file_handle(&self.file), start, end }
    }
}

} // verus!
