use vstd::prelude::*;
use vstd::string::*;

use crate::base::Span;

verus! {

/// `text` with the characters in `[start, end)` replaced by `s`.
pub open spec fn splice(text: Seq<char>, start: int, end: int, s: Seq<char>) -> Seq<char> {
    text.subrange(0, start) + s + text.subrange(end, text.len() as int)
}

/// The text of the line being edited, with a cursor given as a character offset.
pub struct LineBuffer {
    text: String,
    cursor: usize,
}

impl LineBuffer {
    pub closed spec fn text(&self) -> Seq<char> {
        self.text@
    }

    pub closed spec fn cursor(&self) -> nat {
        self.cursor as nat
    }

    /// Text and cursor together.
    pub open spec fn state(&self) -> (Seq<char>, nat) {
        (self.text(), self.cursor())
    }

    /// The cursor stands inside the text or right after it.
    pub open spec fn wf(&self) -> bool {
        self.cursor() <= self.text().len()
    }

    /// An empty line with the cursor at its start.
    pub fn new() -> (r: LineBuffer)
        ensures
            r.text() == Seq::<char>::empty(),
            r.cursor() == 0,
            r.wf(),
    {
        LineBuffer { text: String::new(), cursor: 0 }
    }

    /// The current text.
    pub fn get_buffer(&self) -> (r: &str)
        ensures
            r@ == self.text(),
    {
        self.text.as_str()
    }

    /// The cursor position.
    pub fn offset(&self) -> (r: usize)
        ensures
            r == self.cursor(),
    {
        self.cursor
    }

    /// A copy of this buffer.
    pub fn snapshot(&self) -> (r: LineBuffer)
        ensures
            r.state() == self.state(),
    {
        LineBuffer { text: self.text.clone(), cursor: self.cursor }
    }

    /// Both buffers hold the same text with the cursor at the same place.
    pub fn same_state(&self, other: &LineBuffer) -> (r: bool)
        ensures
            r == (self.state() == other.state()),
    {
        self.cursor == other.cursor && self.text == other.text
    }

    /// Replaces the whole text and puts the cursor after its last character.
    pub fn set_buffer(&mut self, text: &str)
        ensures
            final(self).text() == text@,
            final(self).cursor() == text@.len(),
            final(self).wf(),
    {
        let len = text.unicode_len();
        self.text = String::from_str(text);
        self.cursor = len;
    }

    /// Moves the cursor to `pos`, or to the end of the text where `pos` lies
    /// beyond it; the text is kept.
    pub fn set_offset(&mut self, pos: usize)
        ensures
            final(self).text() == old(self).text(),
            final(self).cursor() == (if pos <= old(self).text().len() {
                pos as nat
            } else {
                old(self).text().len()
            }),
            final(self).wf(),
    {
        let len = self.text.unicode_len();
        self.cursor = if pos <= len {
            pos
        } else {
            len
        };
    }

    /// Empties the line.
    pub fn clear(&mut self)
        ensures
            final(self).text() == Seq::<char>::empty(),
            final(self).cursor() == 0,
            final(self).wf(),
    {
        self.text = String::new();
        self.cursor = 0;
    }

    /// Inserts `s` at the cursor and moves the cursor past it.
    pub fn insert_str(&mut self, s: &str)
        requires
            old(self).wf(),
        ensures
            final(self).text() == splice(
                old(self).text(),
                old(self).cursor() as int,
                old(self).cursor() as int,
                s@,
            ),
            final(self).cursor() == old(self).cursor() + s@.len(),
            final(self).wf(),
    {
        let at = self.cursor;
        self.splice_in(at, at, s);
    }

    /// Replaces the characters in `span` by `s`; the cursor ends right after `s`.
    pub fn replace(&mut self, span: Span, s: &str)
        requires
            span.valid_for(old(self).text().len()),
        ensures
            final(self).text() == splice(
                old(self).text(),
                span.start as int,
                span.end as int,
                s@,
            ),
            final(self).cursor() == span.start + s@.len(),
            final(self).wf(),
    {
        self.splice_in(span.start, span.end, s);
    }

    fn splice_in(&mut self, start: usize, end: usize, s: &str)
        requires
            start <= end <= old(self).text().len(),
        ensures
            final(self).text() == splice(old(self).text(), start as int, end as int, s@),
            final(self).cursor() == start + s@.len(),
            final(self).wf(),
    {
        let len = self.text.unicode_len();
        let head = String::from_str(self.text.as_str().substring_char(0, start));
        let tail = self.text.as_str().substring_char(end, len);
        let joined = head.concat(s).concat(tail);
        let new_len = joined.unicode_len();
        let tail_len = len - end;
        assert(joined@.len() == start + s@.len() + tail_len);
        self.text = joined;
        self.cursor = new_len - tail_len;
    }
}

} // verus!
