//! Source locations attached to syntax tree nodes.

use vstd::prelude::*;

verus! {

/// A range of source text: a file name and the line and column of its first
/// and last character.
#[derive(Debug, PartialEq, Eq)]
pub struct Span {
    pub file: String,
    pub start_line: i32,
    pub start_col: i32,
    pub end_line: i32,
    pub end_col: i32,
}

/// The mathematical value of a [`Span`].
pub struct SpanView {
    pub file: Seq<char>,
    pub start_line: int,
    pub start_col: int,
    pub end_line: int,
    pub end_col: int,
}

impl View for Span {
    type V = SpanView;

    open spec fn view(&self) -> SpanView {
        SpanView {
            file: self.file@,
            start_line: self.start_line as int,
            start_col: self.start_col as int,
            end_line: self.end_line as int,
            end_col: self.end_col as int,
        }
    }
}

pub open spec fn min(a: int, b: int) -> int {
    if a <= b {
        a
    } else {
        b
    }
}

pub open spec fn max(a: int, b: int) -> int {
    if a >= b {
        a
    } else {
        b
    }
}

impl SpanView {
    /// The placeholder span that stands in wherever no position was tracked.
    pub open spec fn dud() -> SpanView {
        SpanView { file: "garb.txt"@, start_line: 1, start_col: 1, end_line: 1, end_col: 1 }
    }

    /// The start does not come after the end, comparing line first and column
    /// second.
    pub open spec fn ordered(self) -> bool {
        self.start_line < self.end_line || (self.start_line == self.end_line && self.start_col
            <= self.end_col)
    }

    /// The bounding box of two spans: the least start line and column, the
    /// greatest end line and column. The file is that of `self`.
    pub open spec fn merge(self, other: SpanView) -> SpanView {
        SpanView {
            file: self.file,
            start_line: min(self.start_line, other.start_line),
            start_col: min(self.start_col, other.start_col),
            end_line: max(self.end_line, other.end_line),
            end_col: max(self.end_col, other.end_col),
        }
    }

    /// The four numbers of a span, without its file.
    pub open spec fn bounds(self) -> (int, int, int, int) {
        (self.start_line, self.start_col, self.end_line, self.end_col)
    }
}

fn smaller(a: i32, b: i32) -> (r: i32)
    ensures
        r == min(a as int, b as int),
{
    if a <= b {
        a
    } else {
        b
    }
}

fn larger(a: i32, b: i32) -> (r: i32)
    ensures
        r == max(a as int, b as int),
{
    if a >= b {
        a
    } else {
        b
    }
}

impl Clone for Span {
    fn clone(&self) -> (r: Span)
        ensures
            r@ == self@,
    {
        Span {
            file: self.file.clone(),
            start_line: self.start_line,
            start_col: self.start_col,
            end_line: self.end_line,
            end_col: self.end_col,
        }
    }
}

impl Span {
    /// The placeholder span: file `garb.txt`, line 1, column 1 at both ends.
    pub fn new_dud() -> (r: Span)
        ensures
            r@ == SpanView::dud(),
    {
        Span {
            file: String::from_str("garb.txt"),
            start_line: 1,
            start_col: 1,
            end_line: 1,
            end_col: 1,
        }
    }

    /// The bounding box of `self` and `other`, in the file of `self`.
    pub fn merge_with(&self, other: &Span) -> (r: Span)
        ensures
            r@ == self@.merge(other@),
    {
        Span {
            file: self.file.clone(),
            start_line: smaller(self.start_line, other.start_line),
            start_col: smaller(self.start_col, other.start_col),
            end_line: larger(self.end_line, other.end_line),
            end_col: larger(self.end_col, other.end_col),
        }
    }
}

/// Merging computes the same bounding box whichever span comes first, and
/// the same span altogether when both lie in one file.
pub proof fn lemma_merge_commutes(a: SpanView, b: SpanView)
    ensures
        a.merge(b).bounds() == b.merge(a).bounds(),
        a.file == b.file ==> a.merge(b) == b.merge(a),
{
}

/// Merging a span with itself gives the span back.
pub proof fn lemma_merge_idempotent(a: SpanView)
    ensures
        a.merge(a) == a,
{
}

/// Merging keeps the start before the end.
pub proof fn lemma_merge_ordered(a: SpanView, b: SpanView)
    requires
        a.ordered(),
        b.ordered(),
    ensures
        a.merge(b).ordered(),
{
}

/// Merging is associative.
pub proof fn lemma_merge_associative(a: SpanView, b: SpanView, c: SpanView)
    ensures
        a.merge(b).merge(c) == a.merge(b.merge(c)),
{
}

} // verus!
