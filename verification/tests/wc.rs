use textutils::wc::{count, format_field, format_row, format_total, Columns, FileInfo};

#[test]
fn test_count() {
    let text = "I don't want the world.\nI just want your half.\r\n";
    let info = count(text);
    let expected = FileInfo {
        num_lines: 2,
        num_words: 10,
        num_chars: 48,
        num_bytes: 48,
    };
    assert_eq!(info, expected);
}

#[test]
fn test_format_field() {
    assert_eq!(format_field(1, false), "");
    assert_eq!(format_field(3, true), "       3");
    assert_eq!(format_field(10, true), "      10");
}

#[test]
fn count_of_nothing() {
    assert_eq!(count(""), FileInfo::zero());
}

#[test]
fn count_without_a_final_line_feed() {
    let info = count("one two\nthree");
    assert_eq!(info.num_lines, 2);
    assert_eq!(info.num_words, 3);
    assert_eq!(info.num_bytes, 13);
    assert_eq!(info.num_chars, 13);
}

#[test]
fn count_tells_bytes_from_characters() {
    let info = count("ábc\u{a0}d\u{3000}\n\n");
    assert_eq!(info.num_lines, 2);
    assert_eq!(info.num_words, 2);
    assert_eq!(info.num_chars, 8);
    assert_eq!(info.num_bytes, 12);
}

#[test]
fn count_agrees_with_line_by_line_counting() {
    for text in ["", "\n", "a", " a  b \n", "\t\nx\ny z\n\n", "tail \u{2028} end"] {
        let info = count(text);
        let mut lines = 0;
        let mut words = 0;
        for line in text.split_inclusive('\n') {
            lines += 1;
            words += line.split_whitespace().count();
        }
        assert_eq!(info.num_lines, lines);
        assert_eq!(info.num_words, words);
        assert_eq!(info.num_bytes, text.len());
        assert_eq!(info.num_chars, text.chars().count());
    }
}

#[test]
fn format_field_keeps_wide_numbers_whole() {
    assert_eq!(format_field(0, true), "       0");
    assert_eq!(format_field(12345678, true), "12345678");
    assert_eq!(format_field(123456789, true), "123456789");
    assert_eq!(format_field(usize::MAX, true), format!("{:>8}", usize::MAX));
}

#[test]
fn totals_add_up_or_give_up() {
    let a = FileInfo {
        num_lines: 1,
        num_words: 2,
        num_bytes: 3,
        num_chars: 4,
    };
    let b = FileInfo {
        num_lines: 10,
        num_words: 20,
        num_bytes: 30,
        num_chars: 40,
    };
    assert_eq!(
        a.total_with(&b),
        Some(FileInfo {
            num_lines: 11,
            num_words: 22,
            num_bytes: 33,
            num_chars: 44,
        })
    );
    let huge = FileInfo {
        num_lines: 0,
        num_words: 0,
        num_bytes: usize::MAX,
        num_chars: 0,
    };
    assert_eq!(a.total_with(&huge), None);
}

#[test]
fn columns_default_to_lines_words_bytes() {
    assert_eq!(
        Columns::from_flags(false, false, false, false),
        Columns {
            lines: true,
            words: true,
            bytes: true,
            chars: false,
        }
    );
    assert_eq!(
        Columns::from_flags(false, false, false, true),
        Columns {
            lines: false,
            words: false,
            bytes: false,
            chars: true,
        }
    );
}

#[test]
fn rows_and_totals() {
    let info = FileInfo {
        num_lines: 1,
        num_words: 9,
        num_bytes: 48,
        num_chars: 48,
    };
    let columns = Columns::from_flags(false, false, false, false);
    assert_eq!(
        format_row(&info, &columns, "fox.txt"),
        "       1       9      48 fox.txt"
    );
    assert_eq!(format_row(&info, &columns, "-"), "       1       9      48");
    assert_eq!(format_total(&info, &columns), "       1       9      48 total");
    let only_chars = Columns::from_flags(false, false, false, true);
    assert_eq!(format_row(&info, &only_chars, "--"), "      48 --");
}
