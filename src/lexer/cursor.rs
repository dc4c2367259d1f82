//! Character-by-character navigation through source text, with line and
//! column tracking.
use crate::error::Span;
use crate::text::chars_of;
use vstd::prelude::*;

verus! {

/// A cursor over the characters of a source text.
pub struct Cursor {
    chars: Vec<char>,
    pos: usize,
    line: usize,
    col: usize,
}

impl Cursor {
    /// The whole text.
    pub closed spec fn text(&self) -> Seq<char> {
        self.chars@
    }

    /// Index of the next character.
    pub closed spec fn position(&self) -> nat {
        self.pos as nat
    }

    pub closed spec fn line_no(&self) -> usize {
        self.line
    }

    pub closed spec fn col_no(&self) -> usize {
        self.col
    }

    pub closed spec fn wf(&self) -> bool {
        self.pos <= self.chars@.len()
    }

    /// Well-formed cursors never stand past the end of the text.
    pub proof fn lemma_in_bounds(&self)
        requires
            self.wf(),
        ensures
            self.position() <= self.text().len(),
    {
    }

    /// A cursor at the first character of `source`, on line 1, column 1.
    pub fn new(source: &str) -> (r: Self)
        ensures
            r.wf(),
            r.text() == source@,
            r.position() == 0,
            r.line_no() == 1,
            r.col_no() == 1,
    {
        Cursor { chars: chars_of(source), pos: 0, line: 1, col: 1 }
    }

    /// The next character, if any, without consuming it.
    pub fn peek(&self) -> (r: Option<char>)
        requires
            self.wf(),
        ensures
            r == (if self.position() < self.text().len() {
                Some(self.text()[self.position() as int])
            } else {
                None::<char>
            }),
    {
        if self.pos < self.chars.len() {
            Some(self.chars[self.pos])
        } else {
            None
        }
    }

    /// The character after the next one, if any.
    pub fn peek_next(&self) -> (r: Option<char>)
        requires
            self.wf(),
        ensures
            r == (if self.position() + 1 < self.text().len() {
                Some(self.text()[self.position() + 1int])
            } else {
                None::<char>
            }),
    {
        if self.pos < self.chars.len() && self.pos + 1 < self.chars.len() {
            Some(self.chars[self.pos + 1])
        } else {
            None
        }
    }

    /// Consumes the next character and returns it. A newline moves to
    /// column 1 of the next line; any other character to the next column.
    pub fn advance(&mut self) -> (r: Option<char>)
        requires
            old(self).wf(),
        ensures
            final(self).wf(),
            final(self).text() == old(self).text(),
            old(self).position() < old(self).text().len() ==> {
                &&& r == Some(old(self).text()[old(self).position() as int])
                &&& final(self).position() == old(self).position() + 1
                &&& old(self).text()[old(self).position() as int] == '\n' ==> final(self).line_no()
                    == (if old(self).line_no() < usize::MAX { old(self).line_no() + 1 } else { usize::MAX as int })
                    && final(self).col_no() == 1
                &&& old(self).text()[old(self).position() as int] != '\n' ==> final(self).line_no()
                    == old(self).line_no() && final(self).col_no() == (if old(self).col_no() < usize::MAX {
                    old(self).col_no() + 1
                } else {
                    usize::MAX as int
                })
            },
            old(self).position() >= old(self).text().len() ==> r is None && *final(self) == *old(self),
    {
        if self.pos < self.chars.len() {
            let ch = self.chars[self.pos];
            self.pos = self.pos + 1;
            if ch == '\n' {
                self.line = self.line.saturating_add(1);
                self.col = 1;
            } else {
                self.col = self.col.saturating_add(1);
            }
            Some(ch)
        } else {
            None
        }
    }

    /// Whether every character has been consumed.
    pub fn is_at_end(&self) -> (r: bool)
        requires
            self.wf(),
        ensures
            r == (self.position() >= self.text().len()),
    {
        self.pos >= self.chars.len()
    }

    /// The current line and column.
    pub fn current_pos(&self) -> (r: (usize, usize))
        ensures
            r == (self.line_no(), self.col_no()),
    {
        (self.line, self.col)
    }

    /// The span of a token that started at the given line and column.
    pub fn make_span(&self, start_line: usize, start_col: usize) -> (r: Span)
        ensures
            r == (Span { line: start_line, col: start_col }),
    {
        Span { line: start_line, col: start_col }
    }
}

} // verus!
