use vstd::arithmetic::div_mod::{lemma_add_mod_noop_right, lemma_mod_add_multiples_vanish, lemma_small_mod};
use vstd::prelude::*;
use vstd::string::*;

use crate::base::{
    apply_candidate, candidates_view, spans_valid, Completer, CompletionActionHandler, Span,
};
use crate::default_completer::DefaultCompleter;
use crate::line_buffer::LineBuffer;

verus! {

/// A cycling session: the candidates found at its start, the one now in the
/// buffer, the text the session started from, and the buffer state it left.
pub struct Cycle {
    pub candidates: Seq<(Span, Seq<char>)>,
    pub index: nat,
    pub origin: Seq<char>,
    pub last: (Seq<char>, nat),
}

/// The session is consistent: it has candidates, one of them is selected,
/// their spans fit the original text, and the buffer it left holds the
/// selected one.
pub open spec fn cycle_wf(s: Cycle) -> bool {
    &&& s.candidates.len() > 0
    &&& s.index < s.candidates.len()
    &&& spans_valid(s.candidates, s.origin.len())
    &&& s.last == apply_candidate(s.origin, s.candidates[s.index as int])
}

/// The session goes on when the buffer is exactly as the session left it.
pub open spec fn cycle_continues(session: Option<Cycle>, buf: (Seq<char>, nat)) -> bool {
    session.is_some() && session.unwrap().last == buf
}

/// One trigger of the cycling handler. `found` is what the completer proposes
/// for `buf`; it is consulted only when no session goes on.
pub open spec fn circular_step(
    found: Seq<(Span, Seq<char>)>,
    session: Option<Cycle>,
    buf: (Seq<char>, nat),
) -> (Option<Cycle>, (Seq<char>, nat)) {
    if cycle_continues(session, buf) {
        let s = session.unwrap();
        let i = (s.index + 1) % s.candidates.len();
        let out = apply_candidate(s.origin, s.candidates[i as int]);
        (Some(Cycle { candidates: s.candidates, index: i, origin: s.origin, last: out }), out)
    } else if found.len() == 0 {
        (None, buf)
    } else {
        let out = apply_candidate(buf.0, found[0]);
        (Some(Cycle { candidates: found, index: 0, origin: buf.0, last: out }), out)
    }
}

/// `k` triggers in a row, starting from `session` and `buf`.
pub open spec fn circular_run<C: Completer>(
    c: C,
    session: Option<Cycle>,
    buf: (Seq<char>, nat),
    k: nat,
) -> (Option<Cycle>, (Seq<char>, nat))
    decreases k,
{
    if k == 0 {
        (session, buf)
    } else {
        let next = circular_step(c.completions(buf.0, buf.1), session, buf);
        circular_run(c, next.0, next.1, (k - 1) as nat)
    }
}

/// Session `s` moved on to the candidate at `j` modulo their number.
spec fn cycle_at(s: Cycle, j: nat) -> Cycle {
    let i = j % s.candidates.len();
    Cycle {
        candidates: s.candidates,
        index: i,
        origin: s.origin,
        last: apply_candidate(s.origin, s.candidates[i as int]),
    }
}

proof fn lemma_cycle_advance<C: Completer>(c: C, s: Cycle, j: nat, k: nat)
    requires
        cycle_wf(s),
    ensures
        circular_run(c, Some(cycle_at(s, j)), cycle_at(s, j).last, k) == (
            Some(cycle_at(s, j + k)),
            cycle_at(s, j + k).last,
        ),
    decreases k,
{
    if k > 0 {
        let n = s.candidates.len();
        lemma_add_mod_noop_right(1, j as int, n as int);
        assert(circular_step(
            c.completions(cycle_at(s, j).last.0, cycle_at(s, j).last.1),
            Some(cycle_at(s, j)),
            cycle_at(s, j).last,
        ) == (Some(cycle_at(s, j + 1)), cycle_at(s, j + 1).last));
        lemma_cycle_advance(c, s, j + 1, (k - 1) as nat);
        assert(j + 1 + (k - 1) == j + k);
    }
}

/// As many triggers as there are candidates, with the buffer left as each
/// trigger left it, bring back the same candidate and the same session.
pub proof fn lemma_cycle_closure<C: Completer>(c: C, s: Cycle)
    requires
        cycle_wf(s),
    ensures
        circular_run(c, Some(s), s.last, s.candidates.len()) == (Some(s), s.last),
{
    let n = s.candidates.len();
    lemma_small_mod(s.index, n);
    lemma_mod_add_multiples_vanish(s.index as int, n as int);
    assert(cycle_at(s, s.index) == s);
    assert(cycle_at(s, s.index + n) == s);
    lemma_cycle_advance(c, s, s.index, n);
}

/// When the buffer is not as the session left it, a trigger that finds
/// candidates starts over at the first one, against the current text.
pub proof fn lemma_cycle_reset(
    found: Seq<(Span, Seq<char>)>,
    session: Option<Cycle>,
    buf: (Seq<char>, nat),
)
    requires
        !cycle_continues(session, buf),
        found.len() > 0,
    ensures
        circular_step(found, session, buf).0 == Some(
            Cycle {
                candidates: found,
                index: 0,
                origin: buf.0,
                last: apply_candidate(buf.0, found[0]),
            },
        ),
        circular_step(found, session, buf).1 == apply_candidate(buf.0, found[0]),
{
}

/// Where the completer finds nothing and no session goes on, any number of
/// triggers leaves the buffer as it was.
pub proof fn lemma_circular_idle<C: Completer>(
    c: C,
    session: Option<Cycle>,
    buf: (Seq<char>, nat),
    k: nat,
)
    requires
        c.completions(buf.0, buf.1).len() == 0,
        !cycle_continues(session, buf),
    ensures
        circular_run(c, session, buf, k).1 == buf,
    decreases k,
{
    if k > 0 {
        assert(circular_step(c.completions(buf.0, buf.1), session, buf) == (None::<Cycle>, buf));
        lemma_circular_idle(c, None, buf, (k - 1) as nat);
    }
}

struct Session {
    candidates: Vec<(Span, String)>,
    index: usize,
    origin: String,
    last: LineBuffer,
}

impl Session {
    spec fn view(&self) -> Cycle {
        Cycle {
            candidates: candidates_view(self.candidates@),
            index: self.index as nat,
            origin: self.origin@,
            last: self.last.state(),
        }
    }
}

/// Cycles through the candidates in place: each trigger puts the next one in
/// the buffer, wrapping around after the last. A buffer changed since the last
/// trigger starts a new session with the first candidate.
pub struct CircularCompletionHandler<C: Completer> {
    completer: C,
    session: Option<Session>,
}

impl<C: Completer> CircularCompletionHandler<C> {
    pub closed spec fn completer(&self) -> C {
        self.completer
    }

    /// The running session, if any.
    pub closed spec fn session(&self) -> Option<Cycle> {
        match self.session {
            Some(s) => Some(s.view()),
            None => None,
        }
    }

    /// A handler with no session, using `completer`.
    pub fn new(completer: C) -> (r: Self)
        ensures
            r.completer() == completer,
            r.session() == None::<Cycle>,
            r.wf(),
    {
        CircularCompletionHandler { completer, session: None }
    }

    /// The same handler with another completer and no session.
    pub fn with_completer<D: Completer>(self, completer: D) -> (r: CircularCompletionHandler<D>)
        ensures
            r.completer() == completer,
            r.session() == None::<Cycle>,
            r.wf(),
    {
        CircularCompletionHandler { completer, session: None }
    }

    /// The index of the candidate now in the buffer, if a session runs.
    pub fn index(&self) -> (r: Option<usize>)
        ensures
            r == (match self.session() {
                Some(s) => Some(s.index as usize),
                None => None,
            }),
    {
        match &self.session {
            Some(s) => Some(s.index),
            None => None,
        }
    }
}

impl Default for CircularCompletionHandler<DefaultCompleter> {
    fn default() -> (r: CircularCompletionHandler<DefaultCompleter>)
        ensures
            r.completer().words() == Seq::<Seq<char>>::empty(),
            r.session() == None::<Cycle>,
            r.wf(),
    {
        CircularCompletionHandler::new(DefaultCompleter::new())
    }
}

impl<C: Completer> CompletionActionHandler for CircularCompletionHandler<C> {
    closed spec fn wf(&self) -> bool {
        match self.session {
            Some(s) => cycle_wf(s.view()) && s.last.wf(),
            None => true,
        }
    }

    fn handle(&mut self, line: &mut LineBuffer)
        ensures
            final(self).completer() == old(self).completer(),
            (final(self).session(), final(line).state()) == circular_step(
                old(self).completer().completions(old(line).text(), old(line).cursor()),
                old(self).session(),
                old(line).state(),
            ),
    {
        let continues = match &self.session {
            Some(s) => s.last.same_state(line),
            None => false,
        };
        if continues {
            let mut s = self.session.take().unwrap();
            let ghost sv = s.view();
            let n = s.candidates.len();
            let next = (s.index + 1) % n;
            proof {
                assert(sv.candidates[next as int] == (
                    s.candidates@[next as int].0,
                    s.candidates@[next as int].1@,
                ));
            }
            line.set_buffer(s.origin.as_str());
            line.replace(s.candidates[next].0, s.candidates[next].1.as_str());
            s.index = next;
            s.last = line.snapshot();
            self.session = Some(s);
        } else {
            let found = self.completer.complete(line.get_buffer(), line.offset());
            if found.len() == 0 {
                self.session = None;
                return ;
            }
            let origin = String::from_str(line.get_buffer());
            proof {
                assert(candidates_view(found@)[0] == (found@[0].0, found@[0].1@));
            }
            line.replace(found[0].0, found[0].1.as_str());
            self.session = Some(
                Session { candidates: found, index: 0, origin, last: line.snapshot() },
            );
        }
    }
}

} // verus!
