use vstd::prelude::*;

use crate::line_buffer::{splice, LineBuffer};

verus! {

/// A half-open range `[start, end)` of character offsets into a line.
#[derive(Clone, Copy, Debug, PartialEq, Eq, Structural)]
pub struct Span {
    pub start: usize,
    pub end: usize,
}

impl Span {
    /// The span lies inside a text of `len` characters.
    pub open spec fn valid_for(self, len: nat) -> bool {
        self.start <= self.end && self.end <= len
    }
}

/// A candidate as the contracts see it: the span to replace and the text to put there.
pub open spec fn candidates_view(c: Seq<(Span, String)>) -> Seq<(Span, Seq<char>)> {
    c.map_values(|p: (Span, String)| (p.0, p.1@))
}

/// The buffer state (text and cursor) after `c` is applied to `text`: its span
/// is replaced by its text and the cursor stands right after it.
pub open spec fn apply_candidate(text: Seq<char>, c: (Span, Seq<char>)) -> (Seq<char>, nat) {
    (splice(text, c.0.start as int, c.0.end as int, c.1), (c.0.start + c.1.len()) as nat)
}

/// Every span of `c` lies inside a text of `len` characters.
pub open spec fn spans_valid(c: Seq<(Span, Seq<char>)>, len: nat) -> bool {
    forall|i: int| 0 <= i < c.len() ==> (#[trigger] c[i]).0.valid_for(len)
}

/// A source of completions: for a line and a cursor position it proposes an
/// ordered list of replacements. No match gives an empty list, never a failure.
pub trait Completer {
    /// The candidates proposed for `line` with the cursor at `pos`.
    spec fn completions(&self, line: Seq<char>, pos: nat) -> Seq<(Span, Seq<char>)>;

    /// Computes the candidates; each span lies inside `line`.
    fn complete(&self, line: &str, pos: usize) -> (r: Vec<(Span, String)>)
        ensures
            candidates_view(r@) == self.completions(line@, pos as nat),
            spans_valid(candidates_view(r@), line@.len()),
    ;
}

/// One completion step, run each time the completion key is pressed.
pub trait CompletionActionHandler {
    /// The handler's session state is consistent.
    spec fn wf(&self) -> bool;

    /// Performs one step against the line being edited.
    fn handle(&mut self, line: &mut LineBuffer)
        requires
            old(self).wf(),
            old(line).wf(),
        ensures
            final(self).wf(),
            final(line).wf(),
    ;
}

} // verus!
