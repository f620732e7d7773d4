use vstd::prelude::*;
use vstd::string::*;

use crate::base::{candidates_view, Completer, Span};

verus! {

/// Characters that end a word: space, tab, line feed, carriage return,
/// vertical tab and form feed. Matching is case sensitive.
pub open spec fn is_boundary(c: char) -> bool {
    c == ' ' || c == '\t' || c == '\n' || c == '\r' || c == '\u{b}' || c == '\u{c}'
}

/// Where the word that ends at `pos` starts: right after the last boundary
/// character before `pos`, or at 0.
pub open spec fn word_start(line: Seq<char>, pos: nat) -> nat
    decreases pos,
{
    if pos == 0 {
        0
    } else if is_boundary(line[pos - 1]) {
        pos
    } else {
        word_start(line, (pos - 1) as nat)
    }
}

/// `w` begins with `p`.
pub open spec fn starts_with(w: Seq<char>, p: Seq<char>) -> bool {
    p.len() <= w.len() && w.subrange(0, p.len() as int) == p
}

/// The words of `words` that begin with `p`, in their order.
pub open spec fn matching(words: Seq<Seq<char>>, p: Seq<char>) -> Seq<Seq<char>> {
    words.filter(|w: Seq<char>| starts_with(w, p))
}

/// The span of the word that ends at `pos`.
pub open spec fn word_span(line: Seq<char>, pos: nat) -> Span {
    Span { start: word_start(line, pos) as usize, end: pos as usize }
}

/// `known` extended by the words of `new` it does not hold yet, in the order
/// of their first occurrence.
pub open spec fn merge_words(known: Seq<Seq<char>>, new: Seq<Seq<char>>) -> Seq<Seq<char>>
    decreases new.len(),
{
    if new.len() == 0 {
        known
    } else {
        let acc = merge_words(known, new.drop_last());
        if acc.contains(new.last()) {
            acc
        } else {
            acc.push(new.last())
        }
    }
}

/// The word before `pos` starts at `word_start`: no boundary character lies
/// between there and `pos`, and one stands right before it unless it is 0.
pub proof fn lemma_word_start(line: Seq<char>, pos: nat)
    requires
        pos <= line.len(),
    ensures
        word_start(line, pos) <= pos,
        forall|k: int| word_start(line, pos) <= k < pos ==> !is_boundary(#[trigger] line[k]),
        word_start(line, pos) == 0 || is_boundary(line[word_start(line, pos) - 1]),
    decreases pos,
{
    if pos > 0 && !is_boundary(line[pos - 1]) {
        lemma_word_start(line, (pos - 1) as nat);
    }
}

/// For any known words and any line, the completer proposes exactly the
/// known words that begin with the word before the cursor, in their order,
/// each paired with the span of that word; where no known word begins with
/// it, it proposes nothing.
pub proof fn lemma_completions_exact(c: DefaultCompleter, line: Seq<char>, pos: nat)
    requires
        pos <= line.len(),
        pos <= usize::MAX,
    ensures
        ({
            let span = word_span(line, pos);
            let p = line.subrange(span.start as int, pos as int);
            let found = c.completions(line, pos);
            &&& span.start <= span.end && span.end == pos
            &&& forall|k: int| 0 <= k < p.len() ==> !is_boundary(#[trigger] p[k])
            &&& span.start == 0 || is_boundary(line[span.start - 1])
            &&& found.len() == matching(c.words(), p).len()
            &&& forall|i: int| 0 <= i < found.len() ==> #[trigger] found[i] == (
                span,
                matching(c.words(), p)[i],
            )
            &&& forall|w: Seq<char>| #[trigger]
                matching(c.words(), p).contains(w) <==> (c.words().contains(w) && starts_with(w, p))
            &&& (forall|w: Seq<char>| c.words().contains(w) ==> !starts_with(w, p)) ==> found.len()
                == 0
        }),
{
    lemma_word_start(line, pos);
    let span = word_span(line, pos);
    let p = line.subrange(span.start as int, pos as int);
    let words = c.words();
    let pred = |w: Seq<char>| starts_with(w, p);
    let m = matching(words, p);
    assert forall|k: int| 0 <= k < p.len() implies !is_boundary(#[trigger] p[k]) by {
        assert(p[k] == line[span.start + k]);
    }
    words.filter_lemma(pred);
    assert forall|w: Seq<char>| #[trigger] m.contains(w) <==> (words.contains(w) && starts_with(w, p)) by {
        if m.contains(w) {
            words.lemma_filter_contains_rev(pred, w);
        }
        if words.contains(w) && starts_with(w, p) {
            let k = choose|k: int| 0 <= k < words.len() && words[k] == w;
            assert(pred(words[k]));
        }
    }
    if forall|w: Seq<char>| words.contains(w) ==> !starts_with(w, p) {
        if m.len() > 0 {
            assert(m.contains(m[0]));
        }
    }
}

/// The words that `merge_words` yields are those of `known` and `new`, and
/// it adds no duplicate to a list that has none.
pub proof fn lemma_merge_words(known: Seq<Seq<char>>, new: Seq<Seq<char>>)
    ensures
        merge_words(known, new).to_set() == known.to_set() + new.to_set(),
        known.no_duplicates() ==> merge_words(known, new).no_duplicates(),
        known.is_prefix_of(merge_words(known, new)),
    decreases new.len(),
{
    if new.len() > 0 {
        let rest = new.drop_last();
        lemma_merge_words(known, rest);
        let acc = merge_words(known, rest);
        assert(new == rest.push(new.last()));
        assert(new.to_set() =~= rest.to_set().insert(new.last())) by {
            assert forall|x: Seq<char>| new.contains(x) <==> (rest.contains(x) || x == new.last()) by {
                if new.contains(x) {
                    let k = choose|k: int| 0 <= k < new.len() && new[k] == x;
                    if k < rest.len() {
                        assert(rest[k] == x);
                    }
                }
                if rest.contains(x) {
                    let k = choose|k: int| 0 <= k < rest.len() && rest[k] == x;
                    assert(new[k] == x);
                }
                if x == new.last() {
                    assert(new[new.len() - 1] == x);
                }
            }
        }
        if !acc.contains(new.last()) {
            let grown = acc.push(new.last());
            assert(grown.to_set() =~= acc.to_set().insert(new.last())) by {
                assert forall|x: Seq<char>| grown.contains(x) <==> (acc.contains(x) || x == new.last()) by {
                    if grown.contains(x) {
                        let k = choose|k: int| 0 <= k < grown.len() && grown[k] == x;
                        if k < acc.len() {
                            assert(acc[k] == x);
                        }
                    }
                    if acc.contains(x) {
                        let k = choose|k: int| 0 <= k < acc.len() && acc[k] == x;
                        assert(grown[k] == x);
                    }
                    if x == new.last() {
                        assert(grown[grown.len() - 1] == x);
                    }
                }
            }
            assert(known.to_set() + new.to_set() =~= acc.to_set().insert(new.last()));
        } else {
            assert(known.to_set() + new.to_set() =~= acc.to_set());
        }
    }
}

/// A completer over a set of known words: it proposes every known word that
/// begins with the word under the cursor, in the order the words were inserted.
pub struct DefaultCompleter {
    words: Vec<String>,
}

fn is_boundary_char(c: char) -> (r: bool)
    ensures
        r == is_boundary(c),
{
    c == ' ' || c == '\t' || c == '\n' || c == '\r' || c == '\u{b}' || c == '\u{c}'
}

fn has_prefix(w: &str, p: &str) -> (r: bool)
    ensures
        r == starts_with(w@, p@),
{
    let wl = w.unicode_len();
    let pl = p.unicode_len();
    if pl > wl {
        return false;
    }
    let mut i: usize = 0;
    while i < pl
        invariant
            pl == p@.len(),
            wl == w@.len(),
            pl <= wl,
            i <= pl,
            w@.subrange(0, i as int) == p@.subrange(0, i as int),
        decreases pl - i,
    {
        if w.get_char(i) != p.get_char(i) {
            assert(w@.subrange(0, pl as int)[i as int] != p@[i as int]);
            return false;
        }
        assert(w@.subrange(0, i + 1) == w@.subrange(0, i as int).push(w@[i as int]));
        assert(p@.subrange(0, i + 1) == p@.subrange(0, i as int).push(p@[i as int]));
        i += 1;
    }
    assert(p@.subrange(0, pl as int) == p@);
    true
}

impl DefaultCompleter {
    /// The known words, in insertion order.
    pub closed spec fn words(&self) -> Seq<Seq<char>> {
        self.words@.map_values(|w: String| w@)
    }

    /// No word is held twice.
    pub open spec fn wf(&self) -> bool {
        self.words().no_duplicates()
    }

    /// A completer that knows no word.
    pub fn new() -> (r: DefaultCompleter)
        ensures
            r.words() == Seq::<Seq<char>>::empty(),
            r.wf(),
    {
        let r = DefaultCompleter { words: Vec::new() };
        assert(r.words() =~= Seq::<Seq<char>>::empty());
        r
    }

    /// A completer that knows `words`, each once, in order of first occurrence.
    pub fn with_words(words: Vec<String>) -> (r: DefaultCompleter)
        ensures
            r.words() == merge_words(Seq::empty(), words@.map_values(|w: String| w@)),
            r.words().to_set() == words@.map_values(|w: String| w@).to_set(),
            r.wf(),
    {
        let mut r = DefaultCompleter::new();
        r.insert(words);
        proof {
            assert(Seq::<Seq<char>>::empty().to_set() + words@.map_values(|w: String| w@).to_set()
                =~= words@.map_values(|w: String| w@).to_set());
        }
        r
    }

    /// Adds the words it does not know yet, in order, each once; the words it
    /// knew keep their place.
    pub fn insert(&mut self, words: Vec<String>)
        ensures
            final(self).words() == merge_words(
                old(self).words(),
                words@.map_values(|w: String| w@),
            ),
            final(self).words().to_set() == old(self).words().to_set() + words@.map_values(
                |w: String| w@,
            ).to_set(),
            old(self).words().is_prefix_of(final(self).words()),
            old(self).wf() ==> final(self).wf(),
    {
        let ghost known = self.words();
        let ghost new = words@.map_values(|w: String| w@);
        let mut i: usize = 0;
        while i < words.len()
            invariant
                i <= words@.len(),
                new == words@.map_values(|w: String| w@),
                self.words() == merge_words(known, new.subrange(0, i as int)),
            decreases words@.len() - i,
        {
            assert(new.subrange(0, i + 1).drop_last() == new.subrange(0, i as int));
            assert(new.subrange(0, i + 1).last() == words@[i as int]@);
            let w = &words[i];
            if !self.knows(w) {
                let ghost prev = self.words@;
                self.words.push(w.clone());
                assert(self.words() =~= prev.map_values(|w: String| w@).push(w@));
            }
            i += 1;
        }
        proof {
            assert(new.subrange(0, new.len() as int) == new);
            lemma_merge_words(known, new);
        }
    }

    /// `w` is among the known words.
    fn knows(&self, w: &String) -> (r: bool)
        ensures
            r == self.words().contains(w@),
    {
        let mut i: usize = 0;
        while i < self.words.len()
            invariant
                i <= self.words@.len(),
                forall|j: int| 0 <= j < i ==> self.words()[j] != w@,
            decreases self.words@.len() - i,
        {
            if self.words[i] == *w {
                assert(self.words()[i as int] == w@);
                return true;
            }
            i += 1;
        }
        false
    }
}

impl Default for DefaultCompleter {
    fn default() -> (r: DefaultCompleter)
        ensures
            r.words() == Seq::<Seq<char>>::empty(),
            r.wf(),
    {
        DefaultCompleter::new()
    }
}

impl Completer for DefaultCompleter {
    open spec fn completions(&self, line: Seq<char>, pos: nat) -> Seq<(Span, Seq<char>)> {
        if pos > line.len() {
            Seq::empty()
        } else {
            let span = word_span(line, pos);
            let prefix = line.subrange(span.start as int, pos as int);
            matching(self.words(), prefix).map_values(|w: Seq<char>| (span, w))
        }
    }

    fn complete(&self, line: &str, pos: usize) -> (r: Vec<(Span, String)>) {
        let mut out: Vec<(Span, String)> = Vec::new();
        let len = line.unicode_len();
        if pos > len {
            assert(candidates_view(out@) =~= Seq::empty());
            return out;
        }
        let mut start = pos;
        while start > 0 && !is_boundary_char(line.get_char(start - 1))
            invariant
                start <= pos <= len,
                len == line@.len(),
                word_start(line@, start as nat) == word_start(line@, pos as nat),
            decreases start,
        {
            start -= 1;
        }
        let span = Span { start, end: pos };
        let prefix = line.substring_char(start, pos);
        let ghost words = self.words();
        let ghost pred = |w: Seq<char>| starts_with(w, prefix@);
        let mut i: usize = 0;
        while i < self.words.len()
            invariant
                i <= self.words@.len(),
                words == self.words(),
                span == word_span(line@, pos as nat),
                pred == (|w: Seq<char>| starts_with(w, prefix@)),
                candidates_view(out@) == words.subrange(0, i as int).filter(pred).map_values(
                    |w: Seq<char>| (span, w),
                ),
            decreases self.words@.len() - i,
        {
            let w = &self.words[i];
            let ghost before = words.subrange(0, i as int);
            assert(words.subrange(0, i + 1).drop_last() == before);
            assert(words.subrange(0, i + 1).last() == w@);
            proof {
                reveal(Seq::filter);
            }
            if has_prefix(w.as_str(), prefix) {
                let ghost prev = out@;
                assert(pred(w@));
                let wc = w.clone();
                out.push((span, wc));
                assert(out@ == prev.push((span, wc)));
                assert(candidates_view(out@) =~= candidates_view(prev).push((span, w@)));
                assert(candidates_view(out@) =~= words.subrange(0, i + 1).filter(pred).map_values(
                    |w: Seq<char>| (span, w),
                ));
            } else {
                assert(candidates_view(out@) =~= words.subrange(0, i + 1).filter(pred).map_values(
                    |w: Seq<char>| (span, w),
                ));
            }
            i += 1;
        }
        assert(words.subrange(0, words.len() as int) == words);
        out
    }
}

} // verus!
