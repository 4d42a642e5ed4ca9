use textutils::lines::lines_of;
use textutils::uniq::{collapse, same_line, Run};

fn uniq(text: &str, show_count: bool) -> String {
    collapse(&lines_of(text), show_count)
}

#[test]
fn runs_collapse_to_their_first_line() {
    assert_eq!(uniq("", false), "");
    assert_eq!(uniq("a\n", false), "a\n");
    assert_eq!(uniq("a\na\n", false), "a\n");
    assert_eq!(uniq("a\na\nb\n", false), "a\nb\n");
    assert_eq!(uniq("a\nb\na\n", false), "a\nb\na\n");
    assert_eq!(uniq("a\na\nb\nb\nb\nc", false), "a\nb\nc");
}

#[test]
fn runs_are_counted() {
    assert_eq!(uniq("a\n", true), "   1 a\n");
    assert_eq!(uniq("a\na\n", true), "   2 a\n");
    assert_eq!(uniq("a\na\nb\n", true), "   2 a\n   1 b\n");
    assert_eq!(uniq("a\nb\na\n", true), "   1 a\n   1 b\n   1 a\n");
    let many = "x\n".repeat(12345);
    assert_eq!(uniq(&many, true), "12345 x\n");
}

#[test]
fn trailing_white_space_does_not_tell_lines_apart() {
    assert!(same_line("a\n", "a"));
    assert!(same_line("a \t\r\n", "a\n"));
    assert!(same_line("", " \n"));
    assert!(!same_line(" a\n", "a\n"));
    assert!(!same_line("a b\n", "a  b\n"));
    assert!(!same_line("ab\n", "a\n"));
    assert_eq!(uniq("a\r\na\na", false), "a\r\n");
    assert_eq!(uniq("a\na\r\n", true), "   2 a\n");
}

#[test]
fn blank_lines_at_the_start_join_the_empty_run() {
    assert_eq!(uniq("\n\na\n", false), "a\n");
    assert_eq!(uniq("\n\na\n", true), "   2    1 a\n");
    assert_eq!(uniq("a\n\n\n", true), "   1 a\n   2 \n");
}

#[test]
fn a_run_steps_line_by_line() {
    let mut run = Run::new();
    assert_eq!(run.render(true), "");
    assert!(run.take_line("a\n").is_some_and(|done| done.count == 0 && done.text.is_empty()));
    assert!(run.take_line("a \n").is_none());
    assert_eq!(run.count, 2);
    assert_eq!(run.text, "a\n");
    let done = run.take_line("b\n").unwrap();
    assert_eq!(done.render(true), "   2 a\n");
    assert_eq!(done.render(false), "a\n");
    assert_eq!(run.render(true), "   1 b\n");
}
