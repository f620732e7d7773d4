use reedline::{Completer, DefaultCompleter, LineBuffer, Span};

fn words(list: &[&str]) -> Vec<String> {
    list.iter().map(|s| s.to_string()).collect()
}

#[test]
fn complete_returns_words_with_prefix() {
    let c = DefaultCompleter::with_words(words(&["test", "this", "testing", "other"]));
    assert_eq!(
        c.complete("te", 2),
        vec![
            (Span { start: 0, end: 2 }, "test".to_string()),
            (Span { start: 0, end: 2 }, "testing".to_string()),
        ]
    );
}

#[test]
fn complete_no_match_is_empty() {
    let c = DefaultCompleter::with_words(words(&["alpha", "beta"]));
    assert_eq!(c.complete("zz", 2), vec![]);
}

#[test]
fn complete_empty_word_proposes_every_word() {
    let c = DefaultCompleter::with_words(words(&["alpha", "beta"]));
    assert_eq!(
        c.complete("git ", 4),
        vec![
            (Span { start: 4, end: 4 }, "alpha".to_string()),
            (Span { start: 4, end: 4 }, "beta".to_string()),
        ]
    );
}

#[test]
fn complete_uses_word_before_cursor() {
    let c = DefaultCompleter::with_words(words(&["commit", "checkout", "clone"]));
    assert_eq!(
        c.complete("git ch rest", 6),
        vec![(Span { start: 4, end: 6 }, "checkout".to_string())]
    );
    assert_eq!(
        c.complete("git\tco", 6),
        vec![(Span { start: 4, end: 6 }, "commit".to_string())]
    );
}

#[test]
fn complete_is_case_sensitive() {
    let c = DefaultCompleter::with_words(words(&["Alpha", "alpha"]));
    assert_eq!(
        c.complete("al", 2),
        vec![(Span { start: 0, end: 2 }, "alpha".to_string())]
    );
}

#[test]
fn complete_counts_characters_not_bytes() {
    let c = DefaultCompleter::with_words(words(&["éclair", "école"]));
    assert_eq!(
        c.complete("un éc", 5),
        vec![
            (Span { start: 3, end: 5 }, "éclair".to_string()),
            (Span { start: 3, end: 5 }, "école".to_string()),
        ]
    );
}

#[test]
fn complete_cursor_past_end_is_empty() {
    let c = DefaultCompleter::with_words(words(&["alpha"]));
    assert_eq!(c.complete("al", 9), vec![]);
}

#[test]
fn complete_spans_lie_inside_line() {
    let c = DefaultCompleter::with_words(words(&["ab", "abc", "b", ""]));
    let line = "x ab b";
    let len = line.chars().count();
    for pos in 0..=len {
        for (span, _) in c.complete(line, pos) {
            assert!(span.start <= span.end);
            assert!(span.end <= len);
        }
    }
}

#[test]
fn insert_keeps_old_words_and_skips_duplicates() {
    let mut c = DefaultCompleter::default();
    c.insert(words(&["b", "a", "b"]));
    c.insert(words(&["c", "a"]));
    assert_eq!(
        c.complete("", 0),
        vec![
            (Span { start: 0, end: 0 }, "b".to_string()),
            (Span { start: 0, end: 0 }, "a".to_string()),
            (Span { start: 0, end: 0 }, "c".to_string()),
        ]
    );
}

#[test]
fn insert_twice_is_insert_once() {
    let mut once = DefaultCompleter::new();
    once.insert(words(&["x", "y"]));
    let mut twice = DefaultCompleter::new();
    twice.insert(words(&["x", "y"]));
    twice.insert(words(&["x", "y"]));
    assert_eq!(once.complete("", 0), twice.complete("", 0));
}

#[test]
fn line_buffer_insert_and_replace() {
    let mut b = LineBuffer::new();
    b.insert_str("hllo");
    assert_eq!(b.offset(), 4);
    b.set_offset(1);
    b.insert_str("e");
    assert_eq!(b.get_buffer(), "hello");
    assert_eq!(b.offset(), 2);
    b.replace(Span { start: 0, end: 5 }, "bye");
    assert_eq!(b.get_buffer(), "bye");
    assert_eq!(b.offset(), 3);
    b.set_offset(10);
    assert_eq!(b.offset(), 3);
    b.clear();
    assert_eq!(b.get_buffer(), "");
    assert_eq!(b.offset(), 0);
}

#[test]
fn line_buffer_set_buffer_puts_cursor_at_end() {
    let mut b = LineBuffer::new();
    b.set_buffer("añb");
    assert_eq!(b.offset(), 3);
    let copy = b.snapshot();
    assert!(copy.same_state(&b));
    b.set_offset(0);
    assert!(!copy.same_state(&b));
}
