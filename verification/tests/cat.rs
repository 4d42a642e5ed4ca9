use textutils::cat::{number_line, render_line, Numbering};
use textutils::text::{echo, join_with};

#[test]
fn every_line_is_numbered() {
    let numbering = Numbering::from_flags(true, false);
    assert_eq!(numbering, Numbering::All);
    assert_eq!(render_line(numbering, "a", 0, 0), ("     1\ta".to_string(), 0));
    assert_eq!(render_line(numbering, "", 1, 0), ("     2\t".to_string(), 0));
    assert_eq!(
        render_line(numbering, "x", 1234566, 0),
        ("1234567\tx".to_string(), 0)
    );
}

#[test]
fn blank_lines_are_not_counted() {
    let numbering = Numbering::from_flags(false, true);
    assert_eq!(numbering, Numbering::NonBlank);
    assert_eq!(render_line(numbering, "a", 0, 0), ("     1\ta".to_string(), 1));
    assert_eq!(render_line(numbering, "", 1, 1), ("".to_string(), 1));
    assert_eq!(render_line(numbering, " ", 2, 1), ("     2\t ".to_string(), 2));
}

#[test]
fn lines_pass_unchanged_without_numbering() {
    let numbering = Numbering::from_flags(false, false);
    assert_eq!(numbering, Numbering::Off);
    assert_eq!(render_line(numbering, "a b", 7, 3), ("a b".to_string(), 3));
    assert_eq!(Numbering::from_flags(true, true), Numbering::All);
    assert_eq!(number_line(10, "ten"), "    10\tten");
}

#[test]
fn echo_joins_words_with_spaces() {
    let words = vec!["Hello".to_string(), "there".to_string()];
    assert_eq!(echo(&words, false), "Hello there\n");
    assert_eq!(echo(&words, true), "Hello there");
    assert_eq!(echo(&vec!["a  b".to_string()], false), "a  b\n");
    assert_eq!(echo(&vec![], true), "");
}

#[test]
fn join_puts_the_separator_between_neighbours() {
    let parts: Vec<String> = ["a", "", "c"].iter().map(|s| s.to_string()).collect();
    assert_eq!(join_with(&parts, ", "), "a, , c");
    assert_eq!(join_with(&parts[..1].to_vec(), ", "), "a");
    assert_eq!(join_with(&vec![], ", "), "");
    assert_eq!(join_with(&parts, ""), "ac");
}
