use regex::{Regex, RegexBuilder};
use textutils::grep::{classify_path, count_output, find_lines, label_output, Found, PathKind};
use textutils::lines::lines_of;

#[test]
fn test_find_lines() {
    let text = "Lorem\nIpsum\r\nDOLOR";
    // The pattern "or" should match the one line, "Lorem"
    let re1 = Regex::new("or").unwrap();

    let matches = find_lines(text, &re1, false);
    assert_eq!(matches.len(), 1);

    // When inverted, the function should match the other two lines
    let matches = find_lines(text, &re1, true);
    assert_eq!(matches.len(), 2);

    // This regex will be case-insensitive
    let re2 = RegexBuilder::new("or")
        .case_insensitive(true)
        .build()
        .unwrap();

    // The two lines "Lorem" and "DOLOR" should match
    let matches = find_lines(text, &re2, false);
    assert_eq!(matches.len(), 2);

    // When inverted, the one remaining line should match
    let matches = find_lines(text, &re2, true);
    assert_eq!(matches.len(), 1);
}

#[test]
fn find_lines_keeps_order_and_line_ends() {
    let re = Regex::new("^[a-z]").unwrap();
    let text = "one\nTwo\r\nthree\n\nfour";
    assert_eq!(find_lines(text, &re, false), vec!["one\n", "three\n", "four"]);
    assert_eq!(find_lines(text, &re, true), vec!["Two\r\n", "\n"]);
    assert_eq!(find_lines("", &re, true), Vec::<String>::new());
}

#[test]
fn lines_keep_their_line_feeds() {
    assert_eq!(lines_of(""), Vec::<String>::new());
    assert_eq!(lines_of("\n"), vec!["\n"]);
    assert_eq!(lines_of("a"), vec!["a"]);
    assert_eq!(lines_of("a\n\nb\r\nc"), vec!["a\n", "\n", "b\r\n", "c"]);
    for text in ["x\ny\n", "\n\n\n", "no end", "é\nü"] {
        let expected: Vec<String> = text.split_inclusive('\n').map(String::from).collect();
        assert_eq!(lines_of(text), expected);
        assert_eq!(lines_of(text).concat(), text);
    }
}

#[test]
fn output_is_labelled_for_several_files() {
    assert_eq!(label_output("fox.txt", "The quick\n", 1), "The quick\n");
    assert_eq!(label_output("fox.txt", "The quick\n", 2), "fox.txt:The quick\n");
    assert_eq!(label_output("fox.txt", "The quick\n", 0), "The quick\n");
    assert_eq!(count_output(0), "0\n");
    assert_eq!(count_output(120), "120\n");
}

#[test]
fn paths_are_classified() {
    let file = Ok(PathKind::File);
    let dir = Ok(PathKind::Dir);
    let other = Ok(PathKind::Other);
    let missing = Err("No such file or directory (os error 2)".to_string());
    assert!(matches!(classify_path("a.txt", &file, false), Found::Input(p) if p == "a.txt"));
    assert!(matches!(classify_path("dir", &dir, true), Found::Walk));
    assert!(
        matches!(classify_path("./tests/inputs", &dir, false), Found::Problem(m) if m == "./tests/inputs is a directory")
    );
    assert!(matches!(classify_path("pipe", &other, true), Found::Nothing));
    assert!(
        matches!(classify_path("gone", &missing, false), Found::Problem(m) if m == "gone: No such file or directory (os error 2)")
    );
}
