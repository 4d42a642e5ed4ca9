use regex::Regex;
use textutils::find::{keep_entry, name_filter, type_filter, EntryKind, EntryType};
use textutils::fortune::{
    chosen_or_none, hit_text, is_separator, search, source_header, Collector, Fortune, Hit,
};
use textutils::pattern::{compile, invalid_pattern_message, matches_any};

const FILE: EntryKind = EntryKind {
    is_dir: false,
    is_file: true,
    is_symlink: false,
};
const DIR: EntryKind = EntryKind {
    is_dir: true,
    is_file: false,
    is_symlink: false,
};
const LINK: EntryKind = EntryKind {
    is_dir: false,
    is_file: false,
    is_symlink: true,
};

#[test]
fn entry_types_are_read_from_letters() {
    assert_eq!(EntryType::from_name("d"), Some(EntryType::Dir));
    assert_eq!(EntryType::from_name("f"), Some(EntryType::File));
    assert_eq!(EntryType::from_name("l"), Some(EntryType::Link));
    assert_eq!(EntryType::from_name("x"), None);
    assert_eq!(EntryType::from_name(""), None);
    assert_eq!(EntryType::from_name("df"), None);
}

#[test]
fn no_type_admits_every_entry() {
    assert!(type_filter(&[], &FILE));
    assert!(type_filter(&[], &DIR));
    assert!(type_filter(&[], &LINK));
}

#[test]
fn types_admit_their_entries_only() {
    assert!(type_filter(&[EntryType::File], &FILE));
    assert!(!type_filter(&[EntryType::File], &DIR));
    assert!(!type_filter(&[EntryType::Dir, EntryType::File], &LINK));
    assert!(type_filter(&[EntryType::Dir, EntryType::Link], &LINK));
}

#[test]
fn names_are_matched_by_any_pattern() {
    let names = vec![Regex::new(r".*\.csv$").unwrap(), Regex::new("^a").unwrap()];
    assert!(name_filter(&[], "anything"));
    assert!(name_filter(&names, "data.csv"));
    assert!(name_filter(&names, "a.txt"));
    assert!(!name_filter(&names, "b.txt"));
    assert!(!matches_any(&[], "b.txt"));
    assert!(keep_entry(&[EntryType::File], &names, &FILE, "a.txt"));
    assert!(!keep_entry(&[EntryType::Dir], &names, &FILE, "a.txt"));
    assert!(!keep_entry(&[EntryType::File], &names, &FILE, "b.txt"));
}

#[test]
fn patterns_compile_or_give_a_message() {
    let re = compile("or", true, "pattern").unwrap();
    assert!(re.is_match("DOLOR"));
    let re = compile("or", false, "pattern").unwrap();
    assert!(!re.is_match("DOLOR"));
    assert_eq!(
        compile("*foo", false, "pattern").unwrap_err(),
        "Invalid pattern \"*foo\""
    );
    assert_eq!(
        compile("(", true, "--name").unwrap_err(),
        "Invalid --name \"(\""
    );
    assert_eq!(
        invalid_pattern_message("--pattern", "x["),
        "Invalid --pattern \"x[\""
    );
}

#[test]
fn fortunes_are_collected_between_separators() {
    let mut collector = Collector::new();
    assert!(collector.take_line("jokes", "%").is_none());
    assert!(collector.take_line("jokes", "Q. Why?").is_none());
    assert!(collector.take_line("jokes", "A. Because.").is_none());
    let fortune = collector.take_line("jokes", "%").unwrap();
    assert_eq!(fortune.source, "jokes");
    assert_eq!(fortune.text, "Q. Why?\nA. Because.");
    assert!(collector.buffer.is_empty());
    assert!(collector.take_line("jokes", "%").is_none());
    assert!(collector.take_line("jokes", "%%").is_none());
    assert!(collector.take_line("jokes", "").is_none());
    let fortune = collector.take_line("quotes", "%").unwrap();
    assert_eq!(fortune.source, "quotes");
    assert_eq!(fortune.text, "%%\n");
    assert!(is_separator("%"));
    assert!(!is_separator("% "));
    assert!(!is_separator(""));
}

#[test]
fn a_search_announces_each_change_of_source() {
    let fortune = |source: &str, text: &str| Fortune {
        source: source.to_string(),
        text: text.to_string(),
    };
    let fortunes = vec![
        fortune("jokes", "a yes"),
        fortune("jokes", "a no"),
        fortune("jokes", "b yes"),
        fortune("quotes", "c no"),
        fortune("quotes", "d yes"),
        fortune("jokes", "e yes"),
    ];
    let hits = search(&fortunes, &Regex::new("yes").unwrap());
    let hit = |index: usize, new_source: bool| Hit { index, new_source };
    assert_eq!(
        hits,
        vec![hit(0, true), hit(2, false), hit(4, true), hit(5, true)]
    );
    assert_eq!(search(&fortunes, &Regex::new("maybe").unwrap()), vec![]);
    assert_eq!(search(&[], &Regex::new("").unwrap()), vec![]);
    assert_eq!(source_header("jokes"), "(jokes)\n%");
    assert_eq!(hit_text("a yes"), "a yes\n%");
    assert_eq!(chosen_or_none(None), "No fortunes found");
    assert_eq!(chosen_or_none(Some("x".to_string())), "x");
}
