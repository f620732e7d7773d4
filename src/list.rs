use vstd::arithmetic::div_mod::{lemma_add_mod_noop_right, lemma_mod_add_multiples_vanish, lemma_small_mod};
use vstd::prelude::*;

use crate::base::{
    apply_candidate, candidates_view, spans_valid, Completer, CompletionActionHandler, Span,
};
use crate::default_completer::DefaultCompleter;
use crate::line_buffer::LineBuffer;

verus! {

/// An open menu: the candidates, the selected one, and the buffer state they
/// were computed from.
pub struct Menu {
    pub candidates: Seq<(Span, Seq<char>)>,
    pub selection: nat,
    pub snapshot: (Seq<char>, nat),
}

/// The menu has candidates, one of them is selected, and their spans fit the
/// text they were computed from.
pub open spec fn menu_wf(m: Menu) -> bool {
    &&& m.candidates.len() > 0
    &&& m.selection < m.candidates.len()
    &&& spans_valid(m.candidates, m.snapshot.0.len())
}

/// What can happen to the list handler.
pub enum ListEvent {
    Trigger,
    Next,
    Previous,
    Confirm,
    Cancel,
}

/// `m` with the selection set to `i`.
pub open spec fn menu_select(m: Menu, i: nat) -> Menu {
    Menu { candidates: m.candidates, selection: i, snapshot: m.snapshot }
}

/// Selection moved one forward, wrapping after the last candidate.
pub open spec fn list_forward(menu: Option<Menu>) -> Option<Menu> {
    match menu {
        Some(m) => Some(menu_select(m, (m.selection + 1) % m.candidates.len())),
        None => None,
    }
}

/// Selection moved one back, wrapping before the first candidate.
pub open spec fn list_back(menu: Option<Menu>) -> Option<Menu> {
    match menu {
        Some(m) => Some(
            menu_select(
                m,
                if m.selection == 0 {
                    (m.candidates.len() - 1) as nat
                } else {
                    (m.selection - 1) as nat
                },
            ),
        ),
        None => None,
    }
}

/// A trigger: a closed menu opens on the candidates `found` for `buf`, unless
/// there are none; an open menu moves forward. The buffer is kept.
pub open spec fn list_trigger(
    found: Seq<(Span, Seq<char>)>,
    menu: Option<Menu>,
    buf: (Seq<char>, nat),
) -> Option<Menu> {
    match menu {
        Some(m) => list_forward(menu),
        None => if found.len() == 0 {
            None
        } else {
            Some(Menu { candidates: found, selection: 0, snapshot: buf })
        },
    }
}

/// A confirm: the menu closes; the selected candidate goes into the buffer
/// when the buffer is still the one the menu was computed from.
pub open spec fn list_confirm(menu: Option<Menu>, buf: (Seq<char>, nat)) -> (Seq<char>, nat) {
    match menu {
        Some(m) => if m.snapshot == buf {
            apply_candidate(buf.0, m.candidates[m.selection as int])
        } else {
            buf
        },
        None => buf,
    }
}

/// One event on the list handler, with the completer `c`.
pub open spec fn list_step<C: Completer>(
    c: C,
    menu: Option<Menu>,
    buf: (Seq<char>, nat),
    e: ListEvent,
) -> (Option<Menu>, (Seq<char>, nat)) {
    match e {
        ListEvent::Trigger => (list_trigger(c.completions(buf.0, buf.1), menu, buf), buf),
        ListEvent::Next => (list_forward(menu), buf),
        ListEvent::Previous => (list_back(menu), buf),
        ListEvent::Confirm => (None, list_confirm(menu, buf)),
        ListEvent::Cancel => (None, buf),
    }
}

/// The events of `events` in order.
pub open spec fn list_run<C: Completer>(
    c: C,
    menu: Option<Menu>,
    buf: (Seq<char>, nat),
    events: Seq<ListEvent>,
) -> (Option<Menu>, (Seq<char>, nat))
    decreases events.len(),
{
    if events.len() == 0 {
        (menu, buf)
    } else {
        let next = list_step(c, menu, buf, events[0]);
        list_run(c, next.0, next.1, events.subrange(1, events.len() as int))
    }
}

/// The event moves the selection or opens the menu, and commits nothing.
pub open spec fn is_navigation(e: ListEvent) -> bool {
    e is Trigger || e is Next || e is Previous
}

proof fn lemma_forward_steps<C: Completer>(c: C, m: Menu, buf: (Seq<char>, nat), j: nat, k: nat)
    requires
        menu_wf(m),
    ensures
        list_run(
            c,
            Some(menu_select(m, j % m.candidates.len())),
            buf,
            Seq::new(k, |i: int| ListEvent::Next),
        ) == (Some(menu_select(m, (j + k) % m.candidates.len())), buf),
    decreases k,
{
    if k > 0 {
        let n = m.candidates.len();
        let events = Seq::new(k, |i: int| ListEvent::Next);
        assert(events.subrange(1, k as int) =~= Seq::new((k - 1) as nat, |i: int| ListEvent::Next));
        lemma_add_mod_noop_right(1, j as int, n as int);
        assert(list_forward(Some(menu_select(m, j % n))) == Some(menu_select(m, (j + 1) % n)));
        lemma_forward_steps(c, m, buf, j + 1, (k - 1) as nat);
        assert(j + 1 + (k - 1) == j + k);
    }
}

/// Moving forward as many times as there are candidates comes back to the
/// selection it started from, and keeps the buffer.
pub proof fn lemma_list_wrap<C: Completer>(c: C, m: Menu, buf: (Seq<char>, nat))
    requires
        menu_wf(m),
    ensures
        list_run(c, Some(m), buf, Seq::new(m.candidates.len(), |i: int| ListEvent::Next)) == (
            Some(m),
            buf,
        ),
{
    let n = m.candidates.len();
    lemma_small_mod(m.selection, n);
    lemma_mod_add_multiples_vanish(m.selection as int, n as int);
    assert(menu_select(m, m.selection % n) == m);
    assert(menu_select(m, (m.selection + n) % n) == m);
    lemma_forward_steps(c, m, buf, m.selection, n);
}

/// A cancel after any run of navigation closes the menu and leaves the buffer
/// as it was before the first of them.
pub proof fn lemma_list_cancel<C: Completer>(
    c: C,
    menu: Option<Menu>,
    buf: (Seq<char>, nat),
    navs: Seq<ListEvent>,
)
    requires
        forall|i: int| 0 <= i < navs.len() ==> is_navigation(#[trigger] navs[i]),
    ensures
        list_run(c, menu, buf, navs.push(ListEvent::Cancel)) == (None::<Menu>, buf),
    decreases navs.len(),
{
    let events = navs.push(ListEvent::Cancel);
    if navs.len() == 0 {
        assert(events.subrange(1, 1) =~= Seq::<ListEvent>::empty());
        assert(list_run(c, None, buf, Seq::<ListEvent>::empty()) == (None::<Menu>, buf));
    } else {
        let rest = navs.subrange(1, navs.len() as int);
        assert(is_navigation(navs[0]));
        assert(events.subrange(1, events.len() as int) =~= rest.push(ListEvent::Cancel));
        let next = list_step(c, menu, buf, navs[0]);
        assert(next.1 == buf);
        assert forall|i: int| 0 <= i < rest.len() implies is_navigation(#[trigger] rest[i]) by {
            assert(rest[i] == navs[i + 1]);
        }
        lemma_list_cancel(c, next.0, buf, rest);
        assert(events[0] == navs[0]);
    }
}

/// Where the completer finds nothing, any number of triggers on a closed
/// menu keeps it closed and leaves the buffer as it was.
pub proof fn lemma_list_idle<C: Completer>(c: C, buf: (Seq<char>, nat), k: nat)
    requires
        c.completions(buf.0, buf.1).len() == 0,
    ensures
        list_run(c, None, buf, Seq::new(k, |i: int| ListEvent::Trigger)) == (None::<Menu>, buf),
    decreases k,
{
    if k > 0 {
        let events = Seq::new(k, |i: int| ListEvent::Trigger);
        assert(events.subrange(1, k as int) =~= Seq::new((k - 1) as nat, |i: int| ListEvent::Trigger));
        lemma_list_idle(c, buf, (k - 1) as nat);
    }
}

struct OpenMenu {
    candidates: Vec<(Span, String)>,
    selection: usize,
    snapshot: LineBuffer,
}

impl OpenMenu {
    spec fn view(&self) -> Menu {
        Menu {
            candidates: candidates_view(self.candidates@),
            selection: self.selection as nat,
            snapshot: self.snapshot.state(),
        }
    }
}

/// Shows the whole candidate list and lets the user move through it before
/// committing. The buffer changes only on confirm; there is no live preview.
/// Rendering the menu is left to the caller, which can read the selection.
pub struct ListCompletionHandler<C: Completer> {
    completer: C,
    menu: Option<OpenMenu>,
}

impl<C: Completer> ListCompletionHandler<C> {
    pub closed spec fn completer(&self) -> C {
        self.completer
    }

    /// The open menu, if any.
    pub closed spec fn menu(&self) -> Option<Menu> {
        match self.menu {
            Some(m) => Some(m.view()),
            None => None,
        }
    }

    /// A handler with a closed menu, using `completer`.
    pub fn new(completer: C) -> (r: Self)
        ensures
            r.completer() == completer,
            r.menu() == None::<Menu>,
            r.wf(),
    {
        ListCompletionHandler { completer, menu: None }
    }

    /// The same handler with another completer and a closed menu.
    pub fn with_completer<D: Completer>(self, completer: D) -> (r: ListCompletionHandler<D>)
        ensures
            r.completer() == completer,
            r.menu() == None::<Menu>,
            r.wf(),
    {
        ListCompletionHandler { completer, menu: None }
    }

    /// The selected position, if the menu is open.
    pub fn selection(&self) -> (r: Option<usize>)
        ensures
            r == (match self.menu() {
                Some(m) => Some(m.selection as usize),
                None => None,
            }),
    {
        match &self.menu {
            Some(m) => Some(m.selection),
            None => None,
        }
    }

    /// The text that a confirm would commit, if the menu is open.
    pub fn selected_text(&self) -> (r: Option<String>)
        requires
            self.wf(),
        ensures
            r.is_some() == self.menu().is_some(),
            r.is_some() ==> r.unwrap()@ == self.menu().unwrap().candidates[self.menu().unwrap().selection as int].1,
    {
        match &self.menu {
            Some(m) => Some(m.candidates[m.selection].1.clone()),
            None => None,
        }
    }

    /// Moves the selection forward, wrapping; the buffer is not touched.
    pub fn next(&mut self)
        requires
            old(self).wf(),
        ensures
            final(self).wf(),
            final(self).completer() == old(self).completer(),
            final(self).menu() == list_forward(old(self).menu()),
    {
        if self.menu.is_some() {
            let mut m = self.menu.take().unwrap();
            let n = m.candidates.len();
            m.selection = (m.selection + 1) % n;
            self.menu = Some(m);
        }
    }

    /// Moves the selection back, wrapping; the buffer is not touched.
    pub fn previous(&mut self)
        requires
            old(self).wf(),
        ensures
            final(self).wf(),
            final(self).completer() == old(self).completer(),
            final(self).menu() == list_back(old(self).menu()),
    {
        if self.menu.is_some() {
            let mut m = self.menu.take().unwrap();
            if m.selection == 0 {
                m.selection = m.candidates.len() - 1;
            } else {
                m.selection = m.selection - 1;
            }
            self.menu = Some(m);
        }
    }

    /// Closes the menu without touching the buffer.
    pub fn cancel(&mut self)
        ensures
            final(self).wf(),
            final(self).completer() == old(self).completer(),
            final(self).menu() == None::<Menu>,
    {
        self.menu = None;
    }

    /// Commits the selected candidate and closes the menu. A buffer changed
    /// since the menu opened is left alone, since the spans no longer fit it.
    pub fn confirm(&mut self, line: &mut LineBuffer)
        requires
            old(self).wf(),
            old(line).wf(),
        ensures
            final(self).wf(),
            final(line).wf(),
            final(self).completer() == old(self).completer(),
            final(self).menu() == None::<Menu>,
            final(line).state() == list_confirm(old(self).menu(), old(line).state()),
    {
        match self.menu.take() {
            Some(m) => {
                if m.snapshot.same_state(line) {
                    let ghost mv = m.view();
                    proof {
                        assert(mv.candidates[mv.selection as int] == (
                            m.candidates@[m.selection as int].0,
                            m.candidates@[m.selection as int].1@,
                        ));
                    }
                    line.replace(m.candidates[m.selection].0, m.candidates[m.selection].1.as_str());
                }
            },
            None => {},
        }
    }
}

impl Default for ListCompletionHandler<DefaultCompleter> {
    fn default() -> (r: ListCompletionHandler<DefaultCompleter>)
        ensures
            r.completer().words() == Seq::<Seq<char>>::empty(),
            r.menu() == None::<Menu>,
            r.wf(),
    {
        ListCompletionHandler::new(DefaultCompleter::new())
    }
}

impl<C: Completer> CompletionActionHandler for ListCompletionHandler<C> {
    closed spec fn wf(&self) -> bool {
        match self.menu {
            Some(m) => menu_wf(m.view()),
            None => true,
        }
    }

    fn handle(&mut self, line: &mut LineBuffer)
        ensures
            final(self).completer() == old(self).completer(),
            (final(self).menu(), final(line).state()) == list_step(
                old(self).completer(),
                old(self).menu(),
                old(line).state(),
                ListEvent::Trigger,
            ),
    {
        if self.menu.is_some() {
            self.next();
        } else {
            let found = self.completer.complete(line.get_buffer(), line.offset());
            if found.len() > 0 {
                self.menu = Some(OpenMenu { candidates: found, selection: 0, snapshot: line.snapshot() });
            }
        }
    }
}

} // verus!
