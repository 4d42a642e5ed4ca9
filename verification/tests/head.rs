use textutils::head::{banner, head_bytes, head_lines};
use textutils::tail::TakeValue::{PlusZero, TakeNum};
use textutils::tail::{count_lines_bytes, parse_count, tail_bytes, tail_lines, Unit};

#[test]
fn test_count_lines_bytes() {
    let one = "Öne line, four wordś.\n";
    let res = count_lines_bytes(one.as_bytes());
    assert_eq!(res, (1, 24));

    let ten = "one\ntwo\nthree\nfour\nfive\nsix\nseven\neight\nnine\nten\n";
    let res = count_lines_bytes(ten.as_bytes());
    assert_eq!(res, (10, 49));
}

#[test]
fn lines_and_bytes_of_odd_inputs() {
    assert_eq!(count_lines_bytes(b""), (0, 0));
    assert_eq!(count_lines_bytes(b"\n"), (1, 1));
    assert_eq!(count_lines_bytes(b"a"), (1, 1));
    assert_eq!(count_lines_bytes(b"a\nb"), (2, 3));
    assert_eq!(count_lines_bytes(b"\n\n\n"), (3, 3));
    assert_eq!(count_lines_bytes(&[0xff, 10, 0xfe]), (2, 3));
}

#[test]
fn banners_separate_files() {
    assert_eq!(banner("one.txt", 0), "==> one.txt <==");
    assert_eq!(banner("two.txt", 1), "\n==> two.txt <==");
    assert_eq!(banner("", 5), "\n==>  <==");
}

#[test]
fn the_head_in_bytes() {
    let text = "ábc".as_bytes();
    assert_eq!(head_bytes(text, 0), "");
    assert_eq!(head_bytes(text, 1), "\u{fffd}");
    assert_eq!(head_bytes(text, 2), "á");
    assert_eq!(head_bytes(text, 4), "ábc");
    assert_eq!(head_bytes(text, u64::MAX), "ábc");
}

#[test]
fn the_head_in_lines() {
    let lines: Vec<String> = ["a\n", "b\n", "c"].iter().map(|s| s.to_string()).collect();
    assert_eq!(head_lines(&lines, 0), Vec::<String>::new());
    assert_eq!(head_lines(&lines, 2), vec!["a\n", "b\n"]);
    assert_eq!(head_lines(&lines, 3), lines);
    assert_eq!(head_lines(&lines, 10), lines);
}

#[test]
fn the_tail_in_bytes() {
    let text = "ábc".as_bytes();
    assert_eq!(tail_bytes(text, &TakeNum(-1)), Some("c".to_string()));
    assert_eq!(tail_bytes(text, &TakeNum(-3)), Some("\u{fffd}bc".to_string()));
    assert_eq!(tail_bytes(text, &TakeNum(-10)), Some("ábc".to_string()));
    assert_eq!(tail_bytes(text, &TakeNum(3)), Some("bc".to_string()));
    assert_eq!(tail_bytes(text, &TakeNum(4)), Some("c".to_string()));
    assert_eq!(tail_bytes(text, &TakeNum(5)), None);
    assert_eq!(tail_bytes(text, &TakeNum(0)), None);
    assert_eq!(tail_bytes(text, &PlusZero), Some("ábc".to_string()));
    assert_eq!(tail_bytes(b"", &PlusZero), None);
}

#[test]
fn the_tail_in_lines() {
    let lines: Vec<String> = ["a\n", "b\n", "c"].iter().map(|s| s.to_string()).collect();
    assert_eq!(tail_lines(&lines, &TakeNum(-1)), vec!["c"]);
    assert_eq!(tail_lines(&lines, &TakeNum(-2)), vec!["b\n", "c"]);
    assert_eq!(tail_lines(&lines, &TakeNum(-5)), lines);
    assert_eq!(tail_lines(&lines, &TakeNum(2)), vec!["b\n", "c"]);
    assert_eq!(tail_lines(&lines, &TakeNum(4)), Vec::<String>::new());
    assert_eq!(tail_lines(&lines, &TakeNum(0)), Vec::<String>::new());
    assert_eq!(tail_lines(&lines, &PlusZero), lines);
    assert_eq!(tail_lines(&vec![], &TakeNum(-1)), Vec::<String>::new());
}

#[test]
fn counts_that_are_no_counts_are_reported() {
    assert_eq!(parse_count("3", Unit::Lines), Ok(TakeNum(-3)));
    assert_eq!(parse_count("+0", Unit::Bytes), Ok(PlusZero));
    assert_eq!(
        parse_count("3.14", Unit::Lines),
        Err("illegal line count -- 3.14".to_string())
    );
    assert_eq!(
        parse_count("foo", Unit::Bytes),
        Err("illegal byte count -- foo".to_string())
    );
}
