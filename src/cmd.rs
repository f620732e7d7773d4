use vstd::prelude::*;
use vstd::string::*;

use crate::base::{candidates_view, Completer, Span};
use crate::default_completer::DefaultCompleter;
use crate::line_buffer::LineBuffer;

verus! {

/// The text of `s` without its trailing whitespace, as std computes it.
pub uninterp spec fn trimmed_end(s: Seq<char>) -> Seq<char>;

/// Relies on `str::trim_end`: the text with trailing whitespace removed,
/// which is a prefix of the text.
#[verifier::external_body]
fn trim_end(s: &str) -> (r: &str)
    ensures
        r@ == trimmed_end(s@),
        r@.len() <= s@.len(),
        r@ == s@.subrange(0, r@.len() as int),
{
    s.trim_end()
}

/// The replacement texts of the candidates, in order.
pub open spec fn replacement_texts(c: Seq<(Span, Seq<char>)>) -> Seq<Seq<char>> {
    c.map_values(|p: (Span, Seq<char>)| p.1)
}

/// The items joined by line feeds, with none after the last.
pub open spec fn join_lines(items: Seq<Seq<char>>) -> Seq<char>
    decreases items.len(),
{
    if items.len() == 0 {
        Seq::empty()
    } else if items.len() == 1 {
        items[0]
    } else {
        join_lines(items.drop_last()) + seq!['\n'] + items.last()
    }
}

/// The buffer state after the selection program answered: a successful
/// answer that is not empty replaces the whole line, cursor at its end;
/// anything else leaves the buffer as it was.
pub open spec fn selection_outcome(buf: (Seq<char>, nat), succeeded: bool, selection: Seq<char>) -> (
    Seq<char>,
    nat,
) {
    if succeeded && selection.len() > 0 {
        (selection, selection.len())
    } else {
        buf
    }
}

/// The selection program to run: its path and its arguments.
pub struct CommandLine {
    pub program: String,
    pub args: Vec<String>,
}

impl CommandLine {
    /// `program` with no arguments.
    pub fn new(program: &str) -> (r: CommandLine)
        ensures
            r.program@ == program@,
            r.args@.len() == 0,
    {
        CommandLine { program: String::from_str(program), args: Vec::new() }
    }

    /// The same command with `a` added as its last argument.
    pub fn arg(self, a: &str) -> (r: CommandLine)
        ensures
            r.program == self.program,
            r.args@ == self.args@.push(r.args@.last()),
            r.args@.last()@ == a@,
    {
        let mut args = self.args;
        args.push(String::from_str(a));
        CommandLine { program: self.program, args }
    }
}

/// Hands the candidates to an external selection program (a fuzzy finder, for
/// instance) and puts its answer in place of the whole line. Each trigger is
/// one round trip with no state kept: `selection_input` gives what to write to
/// the program, or nothing where there is no candidate and so no need to run
/// it; `apply_selection` takes the program's exit status and output.
pub struct CmdCompletionHandler<C: Completer> {
    completer: C,
    command: CommandLine,
}

impl<C: Completer> CmdCompletionHandler<C> {
    pub closed spec fn completer(&self) -> C {
        self.completer
    }

    pub closed spec fn configured(&self) -> CommandLine {
        self.command
    }

    /// A handler that runs `command` over the candidates of `completer`.
    pub fn new(completer: C, command: CommandLine) -> (r: Self)
        ensures
            r.completer() == completer,
            r.configured() == command,
    {
        CmdCompletionHandler { completer, command }
    }

    /// The same handler with another completer.
    pub fn with_completer<D: Completer>(self, completer: D) -> (r: CmdCompletionHandler<D>)
        ensures
            r.completer() == completer,
            r.configured() == self.configured(),
    {
        CmdCompletionHandler { completer, command: self.command }
    }

    /// The same handler with another selection program.
    pub fn with_command(self, command: CommandLine) -> (r: CmdCompletionHandler<C>)
        ensures
            r.completer() == self.completer(),
            r.configured() == command,
    {
        CmdCompletionHandler { completer: self.completer, command }
    }

    /// The selection program.
    pub fn command(&self) -> (r: &CommandLine)
        ensures
            *r == self.configured(),
    {
        &self.command
    }

    /// What to write to the selection program for `line`: the replacement
    /// texts of the candidates joined by line feeds. Nothing where there is no
    /// candidate: then the program is not run and the line stays as it is.
    pub fn selection_input(&self, line: &LineBuffer) -> (r: Option<String>)
        ensures
            r.is_none() <==> self.completer().completions(line.text(), line.cursor()).len() == 0,
            r.is_some() ==> r.unwrap()@ == join_lines(
                replacement_texts(self.completer().completions(line.text(), line.cursor())),
            ),
    {
        let found = self.completer.complete(line.get_buffer(), line.offset());
        if found.len() == 0 {
            return None;
        }
        let ghost texts = replacement_texts(candidates_view(found@));
        let mut out = String::new();
        let mut i: usize = 0;
        while i < found.len()
            invariant
                i <= found@.len(),
                texts == replacement_texts(candidates_view(found@)),
                out@ == join_lines(texts.subrange(0, i as int)),
            decreases found@.len() - i,
        {
            let ghost done = texts.subrange(0, i as int);
            assert(texts.subrange(0, i + 1).drop_last() == done);
            assert(texts.subrange(0, i + 1).last() == found@[i as int].1@);
            if i > 0 {
                out.append("\n");
                proof {
                    reveal_strlit("\n");
                }
            } else {
                assert(out@ == Seq::<char>::empty());
            }
            out.append(found[i].1.as_str());
            proof {
                if i == 0 {
                    assert(out@ =~= texts.subrange(0, 1)[0]);
                }
            }
            i += 1;
        }
        assert(texts.subrange(0, found@.len() as int) == texts);
        Some(out)
    }

    /// Applies the selection program's answer: `succeeded` is its exit
    /// status, `output` what it wrote. Trailing whitespace is dropped, and
    /// what is left replaces the whole line when the program succeeded and
    /// something is left; otherwise the line stays as it is.
    pub fn apply_selection(line: &mut LineBuffer, succeeded: bool, output: &str)
        ensures
            final(line).state() == selection_outcome(old(line).state(), succeeded, trimmed_end(output@)),
            old(line).wf() ==> final(line).wf(),
    {
        let selection = trim_end(output);
        Self::commit_selection(line, succeeded, selection);
    }

    /// Puts `selection` in place of the whole line when `succeeded` holds and
    /// `selection` is not empty; otherwise leaves the line as it is.
    pub fn commit_selection(line: &mut LineBuffer, succeeded: bool, selection: &str)
        ensures
            final(line).state() == selection_outcome(old(line).state(), succeeded, selection@),
            old(line).wf() ==> final(line).wf(),
    {
        if succeeded && !selection.is_empty() {
            line.clear();
            line.insert_str(selection);
            assert(line.text() =~= selection@);
        }
    }
}

impl Default for CmdCompletionHandler<DefaultCompleter> {
    /// A handler over a completer with no words that runs `fzf`.
    fn default() -> (r: CmdCompletionHandler<DefaultCompleter>)
        ensures
            r.completer().words() == Seq::<Seq<char>>::empty(),
            r.configured().program@ == "fzf"@,
            r.configured().args@.len() == 0,
    {
        CmdCompletionHandler::new(DefaultCompleter::new(), CommandLine::new("fzf"))
    }
}

} // verus!
