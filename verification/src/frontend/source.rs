//! A cursor over source text: the text and the byte offset up to which it
//! was consumed. A match moves the cursor on; a failed match leaves it
//! where it was.

use super::pattern::{
    between, compiles, cut, find_at, lemma_boundary_after, leftmost_match, PatternError,
};
use crate::text::texts;
use vstd::prelude::*;
use vstd::utf8::{encode_utf8, encode_utf8_valid_utf8, is_char_boundary};

verus! {

/// A source text and the position of the scan in it.
#[allow(dead_code)]
#[derive(Debug)]
pub struct Source {
    pub path: String,
    pub content: String,
    pub index: usize,
    pub lines: Vec<String>,
    pub line_no: usize,
    pub col_no: usize,
}

/// The mathematical value of a [`Source`].
pub struct SourceView {
    pub path: Seq<char>,
    pub content: Seq<char>,
    pub index: usize,
    pub lines: Seq<Seq<char>>,
    pub line_no: usize,
    pub col_no: usize,
}

impl View for Source {
    type V = SourceView;

    open spec fn view(&self) -> SourceView {
        SourceView {
            path: self.path@,
            content: self.content@,
            index: self.index,
            lines: texts(self.lines@),
            line_no: self.line_no,
            col_no: self.col_no,
        }
    }
}

impl SourceView {
    /// The position lies in the text, between two characters.
    pub open spec fn wf(self) -> bool {
        &&& self.index <= encode_utf8(self.content).len()
        &&& is_char_boundary(encode_utf8(self.content), self.index as int)
    }

    /// A cursor at the start of `content`.
    pub open spec fn start(content: Seq<char>) -> SourceView {
        SourceView {
            path: "dud.txt"@,
            content,
            index: 0,
            lines: Seq::empty(),
            line_no: 0,
            col_no: 0,
        }
    }

    /// The cursor moved to the byte offset `index`.
    pub open spec fn at(self, index: usize) -> SourceView {
        SourceView { index, ..self }
    }

    /// The offset at which the match of `pattern` ends that starts exactly
    /// at the cursor: a match further on does not count.
    pub open spec fn match_end(self, pattern: Seq<char>) -> Option<usize> {
        match leftmost_match(pattern, self.content, self.index) {
            Some((from, to)) => if from == self.index {
                Some(to)
            } else {
                None
            },
            None => None,
        }
    }

    /// The offset after `literal`, if the text goes on with it at the
    /// cursor and fits.
    pub open spec fn literal_end(self, literal: Seq<char>) -> Option<usize> {
        let bytes = encode_utf8(self.content);
        let end = self.index + encode_utf8(literal).len();
        if end <= bytes.len() && end <= usize::MAX && bytes.subrange(self.index as int, end)
            == encode_utf8(literal) && is_char_boundary(bytes, end) {
            Some(end as usize)
        } else {
            None
        }
    }
}

impl Clone for Source {
    fn clone(&self) -> (r: Source)
        ensures
            r@ == self@,
    {
        let mut lines: Vec<String> = Vec::new();
        let mut i: usize = 0;
        while i < self.lines.len()
            invariant
                i <= self.lines.len(),
                texts(lines@) == texts(self.lines@).take(i as int),
            decreases self.lines.len() - i,
        {
            let ghost before = lines@;
            lines.push(self.lines[i].clone());
            assert(texts(lines@) =~= texts(before).push(self.lines[i as int]@));
            assert(texts(lines@) =~= texts(self.lines@).take(i + 1));
            i += 1;
        }
        assert(texts(self.lines@).take(self.lines.len() as int) =~= texts(self.lines@));
        Source {
            path: self.path.clone(),
            content: self.content.clone(),
            index: self.index,
            lines,
            line_no: self.line_no,
            col_no: self.col_no,
        }
    }
}

impl Source {
    /// A cursor over an empty text.
    pub fn dud() -> (r: Source)
        ensures
            r@ == SourceView::start(Seq::empty()),
            r@.wf(),
    {
        let r = Source {
            path: String::from_str("dud.txt"),
            content: String::new(),
            index: 0,
            lines: Vec::new(),
            line_no: 0,
            col_no: 0,
        };
        proof {
            assert(texts(r.lines@) =~= Seq::empty());
            Self::lemma_start(r@.content);
        }
        r
    }

    /// A cursor at the start of `content`.
    pub fn from(content: String) -> (r: Source)
        ensures
            r@ == SourceView::start(content@),
            r@.wf(),
    {
        let r = Source {
            path: String::from_str("dud.txt"),
            content,
            index: 0,
            lines: Vec::new(),
            line_no: 0,
            col_no: 0,
        };
        proof {
            assert(texts(r.lines@) =~= Seq::empty());
            Self::lemma_start(r@.content);
        }
        r
    }

    /// The start of a text is a position in it.
    proof fn lemma_start(content: Seq<char>)
        ensures
            SourceView::start(content).wf(),
    {
        encode_utf8_valid_utf8(content);
    }

    /// The text that is left after the cursor.
    pub fn rest(&self) -> (r: &str)
        requires
            self@.wf(),
        ensures
            r@ == super::pattern::after(self@.content, self@.index as int),
    {
        let (_, tail) = cut(self.content.as_str(), self.index);
        tail
    }

    /// Matches the regular expression `exp` exactly at the cursor. On a
    /// match the cursor moves past it, and the result is the matched text
    /// with a copy of the moved cursor. Without a match, and where `exp` is
    /// no regular expression, the cursor stays.
    pub fn match_reg(&mut self, exp: &str) -> (r: Result<Option<(String, Source)>, PatternError>)
        requires
            old(self)@.wf(),
        ensures
            final(self)@.wf(),
            final(self)@.index >= old(self)@.index,
            r is Ok <==> compiles(exp@),
            match r {
                Ok(Some((matched, snapshot))) => {
                    &&& old(self)@.match_end(exp@) matches Some(end)
                    &&& final(self)@ == old(self)@.at(end)
                    &&& matched@ == between(old(self)@.content, old(self)@.index as int, end as int)
                    &&& snapshot@ == final(self)@
                },
                Ok(None) => old(self)@.match_end(exp@) is None && final(self)@ == old(self)@,
                Err(_) => final(self)@ == old(self)@,
            },
    {
        match find_at(exp, self.content.as_str(), self.index) {
            Ok(Some((from, to))) => {
                if from != self.index {
                    return Ok(None);
                }
                let ghost bytes = encode_utf8(self.content@);
                proof {
                    encode_utf8_valid_utf8(self.content@);
                    lemma_boundary_after(bytes, from as int, to as int);
                }
                let (_, tail) = cut(self.content.as_str(), from);
                let (matched, _) = cut(tail, to - from);
                let matched = String::from_str(matched);
                proof {
                    assert(bytes.subrange(from as int, bytes.len() as int).subrange(0, to - from)
                        =~= bytes.subrange(from as int, to as int));
                }
                self.index = to;
                Ok(Some((matched, self.clone())))
            },
            Ok(None) => Ok(None),
            Err(e) => Err(e),
        }
    }

    /// Matches the text `literal` exactly at the cursor. On a match the
    /// cursor moves past it, and the result is the matched text with a copy
    /// of the moved cursor. Without a match the cursor stays.
    pub fn match_literal(&mut self, literal: &str) -> (r: Option<(String, Source)>)
        requires
            old(self)@.wf(),
        ensures
            final(self)@.wf(),
            final(self)@.index >= old(self)@.index,
            match r {
                Some((matched, snapshot)) => {
                    &&& old(self)@.literal_end(literal@) matches Some(end)
                    &&& final(self)@ == old(self)@.at(end)
                    &&& matched@ == literal@
                    &&& snapshot@ == final(self)@
                },
                None => old(self)@.literal_end(literal@) is None && final(self)@ == old(self)@,
            },
    {
        let wanted = literal.as_bytes();
        let given = self.content.as_str().as_bytes();
        if wanted.len() > given.len() - self.index {
            return None;
        }
        let end: usize = self.index + wanted.len();
        let mut i: usize = 0;
        while i < wanted.len()
            invariant
                *self == *old(self),
                self@.wf(),
                i <= wanted.len(),
                end == self.index + wanted.len(),
                end <= given.len(),
                wanted@ == encode_utf8(literal@),
                given@ == encode_utf8(self.content@),
                forall|j: int| 0 <= j < i ==> given@[self.index + j] == wanted@[j],
            decreases wanted.len() - i,
        {
            if given[self.index + i] != wanted[i] {
                proof {
                    let part = given@.subrange(self.index as int, end as int);
                    assert(part[i as int] == given@[self.index + i]);
                }
                return None;
            }
            i += 1;
        }
        if !self.content.as_str().is_char_boundary(end) {
            return None;
        }
        proof {
            assert(given@.subrange(self.index as int, end as int) =~= wanted@);
        }
        self.index = end;
        Some((String::from_str(literal), self.clone()))
    }
}

} // verus!
