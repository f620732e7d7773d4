use reedline::{
    CircularCompletionHandler, CmdCompletionHandler, CommandLine, CompletionActionHandler,
    DefaultCompleter, LineBuffer, ListCompletionHandler,
};

fn completer(list: &[&str]) -> DefaultCompleter {
    DefaultCompleter::with_words(list.iter().map(|s| s.to_string()).collect())
}

fn line(text: &str) -> LineBuffer {
    let mut b = LineBuffer::new();
    b.set_buffer(text);
    b
}

#[test]
fn circular_first_trigger_inserts_first_candidate() {
    let mut h = CircularCompletionHandler::new(completer(&["test", "testing", "other"]));
    let mut b = line("echo te");
    h.handle(&mut b);
    assert_eq!(b.get_buffer(), "echo test");
    assert_eq!(b.offset(), 9);
    assert_eq!(h.index(), Some(0));
}

#[test]
fn circular_cycles_and_wraps() {
    let mut h = CircularCompletionHandler::new(completer(&["test", "testing", "te"]));
    let mut b = line("te");
    h.handle(&mut b);
    assert_eq!(b.get_buffer(), "test");
    h.handle(&mut b);
    assert_eq!(b.get_buffer(), "testing");
    h.handle(&mut b);
    assert_eq!(b.get_buffer(), "te");
    h.handle(&mut b);
    assert_eq!(b.get_buffer(), "test");
    assert_eq!(h.index(), Some(0));
}

#[test]
fn circular_n_triggers_return_to_same_text() {
    let mut h = CircularCompletionHandler::new(completer(&["ab", "abc", "abd"]));
    let mut b = line("x a y");
    b.set_offset(3);
    h.handle(&mut b);
    let first = b.get_buffer().to_string();
    let first_offset = b.offset();
    assert_eq!(first, "x ab y");
    for _ in 0..3 {
        h.handle(&mut b);
    }
    assert_eq!(b.get_buffer(), first);
    assert_eq!(b.offset(), first_offset);
}

#[test]
fn circular_context_change_resets_index() {
    let mut h = CircularCompletionHandler::new(completer(&["alpha", "alps", "beta"]));
    let mut b = line("al");
    h.handle(&mut b);
    h.handle(&mut b);
    assert_eq!(b.get_buffer(), "alps");
    assert_eq!(h.index(), Some(1));
    b.insert_str(" b");
    h.handle(&mut b);
    assert_eq!(b.get_buffer(), "alps beta");
    assert_eq!(h.index(), Some(0));
}

#[test]
fn circular_no_candidates_never_changes_buffer() {
    let mut h = CircularCompletionHandler::new(completer(&["alpha"]));
    let mut b = line("zz");
    for _ in 0..3 {
        h.handle(&mut b);
        assert_eq!(b.get_buffer(), "zz");
        assert_eq!(b.offset(), 2);
        assert_eq!(h.index(), None);
    }
}

#[test]
fn circular_default_has_no_words() {
    let mut h = CircularCompletionHandler::default();
    let mut b = line("a");
    h.handle(&mut b);
    assert_eq!(b.get_buffer(), "a");
    let mut h = h.with_completer(completer(&["abc"]));
    h.handle(&mut b);
    assert_eq!(b.get_buffer(), "abc");
}

#[test]
fn list_trigger_opens_without_touching_buffer() {
    let mut h = ListCompletionHandler::new(completer(&["alpha", "alps"]));
    let mut b = line("al");
    h.handle(&mut b);
    assert_eq!(h.selection(), Some(0));
    assert_eq!(h.selected_text(), Some("alpha".to_string()));
    assert_eq!(b.get_buffer(), "al");
}

#[test]
fn list_forward_n_times_wraps() {
    let mut h = ListCompletionHandler::new(completer(&["a1", "a2", "a3"]));
    let mut b = line("a");
    h.handle(&mut b);
    h.next();
    assert_eq!(h.selection(), Some(1));
    for _ in 0..3 {
        h.next();
    }
    assert_eq!(h.selection(), Some(1));
    h.handle(&mut b);
    assert_eq!(h.selection(), Some(2));
    h.next();
    assert_eq!(h.selection(), Some(0));
}

#[test]
fn list_previous_wraps() {
    let mut h = ListCompletionHandler::new(completer(&["a1", "a2", "a3"]));
    let mut b = line("a");
    h.handle(&mut b);
    h.previous();
    assert_eq!(h.selection(), Some(2));
    h.previous();
    assert_eq!(h.selection(), Some(1));
}

#[test]
fn list_confirm_commits_selection() {
    let mut h = ListCompletionHandler::new(completer(&["alpha", "alps"]));
    let mut b = line("go al");
    h.handle(&mut b);
    h.next();
    h.confirm(&mut b);
    assert_eq!(b.get_buffer(), "go alps");
    assert_eq!(b.offset(), 7);
    assert_eq!(h.selection(), None);
}

#[test]
fn list_cancel_leaves_buffer_identical() {
    let mut h = ListCompletionHandler::new(completer(&["alpha", "alps", "altitude"]));
    let mut b = line("x al");
    b.set_offset(4);
    let before = b.snapshot();
    h.handle(&mut b);
    h.next();
    h.previous();
    h.previous();
    h.handle(&mut b);
    h.cancel();
    assert!(b.same_state(&before));
    assert_eq!(b.get_buffer(), "x al");
    assert_eq!(h.selection(), None);
}

#[test]
fn list_confirm_on_changed_buffer_does_nothing() {
    let mut h = ListCompletionHandler::new(completer(&["alpha"]));
    let mut b = line("al");
    h.handle(&mut b);
    b.insert_str("x");
    h.confirm(&mut b);
    assert_eq!(b.get_buffer(), "alx");
    assert_eq!(h.selection(), None);
}

#[test]
fn list_no_candidates_stays_closed() {
    let mut h = ListCompletionHandler::default();
    let mut b = line("zz");
    for _ in 0..3 {
        h.handle(&mut b);
        assert_eq!(h.selection(), None);
        assert_eq!(b.get_buffer(), "zz");
    }
    h.confirm(&mut b);
    assert_eq!(b.get_buffer(), "zz");
}

#[test]
fn cmd_input_joins_candidates_by_line_feed() {
    let h = CmdCompletionHandler::new(completer(&["alpha", "beta", "gamma"]), CommandLine::new("pick"));
    let b = line("");
    assert_eq!(h.selection_input(&b), Some("alpha\nbeta\ngamma".to_string()));
    let b = line("g");
    assert_eq!(h.selection_input(&b), Some("gamma".to_string()));
}

#[test]
fn cmd_no_candidates_means_no_round_trip() {
    let h = CmdCompletionHandler::default().with_completer(completer(&["alpha", "beta"]));
    let b = line("zz");
    assert_eq!(h.selection_input(&b), None);
    assert_eq!(b.get_buffer(), "zz");
}

#[test]
fn cmd_success_replaces_whole_line() {
    let h = CmdCompletionHandler::default().with_completer(completer(&["alpha", "beta"]));
    let mut b = line("");
    assert_eq!(h.selection_input(&b), Some("alpha\nbeta".to_string()));
    CmdCompletionHandler::<DefaultCompleter>::apply_selection(&mut b, true, "beta\n");
    assert_eq!(b.get_buffer(), "beta");
    assert_eq!(b.offset(), 4);
}

#[test]
fn cmd_success_replaces_text_already_typed() {
    let mut b = line("echo be");
    CmdCompletionHandler::<DefaultCompleter>::apply_selection(&mut b, true, "beta  \r\n\t");
    assert_eq!(b.get_buffer(), "beta");
    assert_eq!(b.offset(), 4);
}

#[test]
fn cmd_failure_keeps_buffer() {
    let mut b = line("echo be");
    b.set_offset(2);
    CmdCompletionHandler::<DefaultCompleter>::apply_selection(&mut b, false, "beta\n");
    assert_eq!(b.get_buffer(), "echo be");
    assert_eq!(b.offset(), 2);
}

#[test]
fn cmd_empty_output_keeps_buffer() {
    let mut b = line("echo be");
    CmdCompletionHandler::<DefaultCompleter>::apply_selection(&mut b, true, "");
    assert_eq!(b.get_buffer(), "echo be");
    CmdCompletionHandler::<DefaultCompleter>::apply_selection(&mut b, true, " \n");
    assert_eq!(b.get_buffer(), "echo be");
    assert_eq!(b.offset(), 7);
}

#[test]
fn cmd_commit_selection_takes_text_as_given() {
    let mut b = line("x");
    CmdCompletionHandler::<DefaultCompleter>::commit_selection(&mut b, true, "a b ");
    assert_eq!(b.get_buffer(), "a b ");
    CmdCompletionHandler::<DefaultCompleter>::commit_selection(&mut b, true, "");
    assert_eq!(b.get_buffer(), "a b ");
    CmdCompletionHandler::<DefaultCompleter>::commit_selection(&mut b, false, "q");
    assert_eq!(b.get_buffer(), "a b ");
}

#[test]
fn cmd_command_configuration() {
    let h = CmdCompletionHandler::default();
    assert_eq!(h.command().program, "fzf");
    assert!(h.command().args.is_empty());
    let h = h.with_command(CommandLine::new("sk").arg("--multi").arg("-q"));
    assert_eq!(h.command().program, "sk");
    assert_eq!(h.command().args, vec!["--multi".to_string(), "-q".to_string()]);
}
