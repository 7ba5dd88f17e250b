use lumolog::source::{
    gather, FileSource, FollowableSource, FollowableStdinSource, Received, StdinSource,
};
use std::sync::mpsc;
use std::time::Duration;

fn source_of(input: &str) -> FollowableStdinSource {
    let (sender, receiver) = mpsc::channel();
    for line in input.lines() {
        sender.send(line.to_string()).unwrap();
    }
    drop(sender);
    FollowableStdinSource::from_receiver(receiver)
}

#[test]
fn test_large_file_line_count() {
    let mut content = String::new();
    for i in 0..10_000 {
        content.push_str(&format!("2024-01-15 INFO Line number {}\n", i));
    }
    let source = FileSource::from_text(&content);
    assert_eq!(source.line_count(), 10_000);
}

#[test]
fn test_stdin_source_reads_lines() {
    let input = "line 1\nline 2\nline 3\n";
    let source = StdinSource::from_text(input);
    let lines = source.lines();
    assert_eq!(lines.len(), 3);
    assert_eq!(lines[0], "line 1");
}

#[test]
fn test_followable_stdin_from_reader() {
    let input = "line 1\nline 2\nline 3\n";
    let mut src = source_of(input);
    let initial = src.recv_initial(Duration::from_millis(100));
    assert_eq!(initial, vec!["line 1", "line 2", "line 3"]);
}

#[test]
fn test_followable_stdin_read_new_lines() {
    let input = "line 1\nline 2\n";
    let mut src = source_of(input);
    let lines = src.read_new_lines();
    assert_eq!(lines, vec!["line 1", "line 2"]);
    let empty = src.read_new_lines();
    assert!(empty.is_empty());
}

#[test]
fn test_followable_stdin_detects_closed() {
    let input = "done\n";
    let mut src = source_of(input);
    let _ = src.read_new_lines();
    let _ = src.read_new_lines();
    assert!(src.is_closed());
}

#[test]
fn test_followable_stdin_streams_from_pipe() {
    let (writer, receiver) = mpsc::channel();
    let mut src = FollowableStdinSource::from_receiver(receiver);

    writer.send("first".to_string()).unwrap();
    assert_eq!(src.read_new_lines(), vec!["first"]);

    writer.send("second".to_string()).unwrap();
    assert_eq!(src.read_new_lines(), vec!["second"]);

    drop(writer);
    let _ = src.read_new_lines();
    assert!(src.is_closed());
}

#[test]
fn file_source_of_empty_text_has_no_lines() {
    let source = FileSource::from_text("");
    assert_eq!(source.line_count(), 0);
    assert!(source.lines().is_empty());
}

#[test]
fn lines_end_with_line_feed_or_return_and_line_feed() {
    let source = FileSource::from_text("foo\r\nbar\n\nbaz\r");
    let lines: Vec<&str> = source.lines().iter().map(|s| s.as_str()).collect();
    assert_eq!(lines, vec!["foo", "bar", "", "baz\r"]);
}

#[test]
fn stdin_source_keeps_the_lines_it_is_given() {
    let source = StdinSource::from_lines(vec!["a".to_string(), "b".to_string()]);
    assert_eq!(source.lines(), &["a".to_string(), "b".to_string()]);
}

#[test]
fn followable_source_reads_from_where_it_stopped() {
    let mut source = FollowableSource::new("app.log", 100);
    assert_eq!(source.pending(100), None);
    assert_eq!(source.pending(40), None);
    assert_eq!(source.pending(130), Some(100));
    let lines = source.accept(130, "one\ntwo\n");
    assert_eq!(lines, vec!["one", "two"]);
    assert_eq!(source.offset, 130);
    assert_eq!(source.pending(130), None);
    assert_eq!(source.path, "app.log");
}

#[test]
fn initial_lines_of_a_silent_open_input_are_none() {
    let (_writer, receiver) = mpsc::channel::<String>();
    let mut src = FollowableStdinSource::from_receiver(receiver);
    let initial = src.recv_initial(Duration::from_millis(5));
    assert!(initial.is_empty());
    assert!(!src.is_closed());
}

#[test]
fn initial_lines_of_an_ended_input_close_the_source() {
    let mut src = source_of("");
    let initial = src.recv_initial(Duration::from_millis(5));
    assert!(initial.is_empty());
    assert!(src.is_closed());
    assert!(src.read_new_lines().is_empty());
}

#[test]
fn a_line_joins_the_lines_gathered_and_anything_else_ends_the_taking() {
    let mut lines = vec!["one".to_string()];
    assert!(gather(&mut lines, Received::Line("two".to_string())));
    assert_eq!(lines, vec!["one", "two"]);
    assert!(!gather(&mut lines, Received::Empty));
    assert_eq!(lines, vec!["one", "two"]);
    assert!(!gather(&mut lines, Received::Closed));
    assert_eq!(lines, vec!["one", "two"]);
}

#[test]
fn only_a_sender_that_is_gone_closes_the_source() {
    let (_writer, receiver) = mpsc::channel::<String>();
    let mut src = FollowableStdinSource::from_receiver(receiver);
    let mut lines: Vec<String> = Vec::new();
    assert!(src.take(&mut lines, Received::Line("first".to_string())));
    assert_eq!(lines, vec!["first"]);
    assert!(!src.is_closed());
    assert!(!src.take(&mut lines, Received::Empty));
    assert_eq!(lines, vec!["first"]);
    assert!(!src.is_closed());
    assert!(!src.take(&mut lines, Received::Closed));
    assert_eq!(lines, vec!["first"]);
    assert!(src.is_closed());
    assert!(src.take(&mut lines, Received::Line("late".to_string())));
    assert_eq!(lines, vec!["first", "late"]);
    assert!(src.is_closed());
}

#[test]
fn a_source_takes_its_lines_from_the_channel_it_was_given() {
    let (writer, receiver) = mpsc::channel::<String>();
    let mut src = FollowableStdinSource::from_receiver(receiver);
    writer.send("through".to_string()).unwrap();
    assert_eq!(src.read_new_lines(), vec!["through"]);
    assert!(!src.is_closed());
}

#[test]
fn the_first_lines_are_a_burst_and_leave_the_end_for_later() {
    let (writer, receiver) = mpsc::channel::<String>();
    writer.send("a".to_string()).unwrap();
    writer.send("b".to_string()).unwrap();
    drop(writer);
    let mut src = FollowableStdinSource::from_receiver(receiver);
    assert_eq!(src.recv_initial(Duration::from_millis(50)), vec!["a", "b"]);
    assert!(!src.is_closed());
    assert!(src.read_new_lines().is_empty());
    assert!(src.is_closed());
}
