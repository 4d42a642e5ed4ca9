use csv::StringRecord;
use textutils::mode::{choose_mode, configure, parse_delimiter, ConfigError, Extract};

#[test]
fn a_delimiter_is_one_byte() {
    assert!(matches!(parse_delimiter("\t"), Ok(b'\t')));
    assert!(matches!(parse_delimiter(","), Ok(b',')));
    let err = parse_delimiter(",,").unwrap_err();
    assert_eq!(err.to_string(), "--delim \",,\" must be a single byte");
    let err = parse_delimiter("").unwrap_err();
    assert_eq!(err.to_string(), "--delim \"\" must be a single byte");
    let err = parse_delimiter("é").unwrap_err();
    assert_eq!(err.to_string(), "--delim \"é\" must be a single byte");
}

#[test]
fn a_mode_must_be_chosen() {
    let err = choose_mode(None, None, None).unwrap_err();
    assert!(matches!(err, ConfigError::NoMode));
    assert_eq!(err.to_string(), "Must have --fields, --bytes, or --chars");
    assert!(matches!(
        choose_mode(Some(vec![0..1]), None, None),
        Ok(Extract::Fields(list)) if list == vec![0..1]
    ));
    assert!(matches!(
        choose_mode(None, Some(vec![1..2]), Some(vec![0..1])),
        Ok(Extract::Bytes(list)) if list == vec![1..2]
    ));
    assert!(matches!(
        choose_mode(None, None, Some(vec![2..5])),
        Ok(Extract::Chars(list)) if list == vec![2..5]
    ));
}

#[test]
fn a_configuration_is_made_of_plain_values() {
    let files = vec!["-".to_string()];
    let config = configure(files.clone(), ",", Some("1,3-4"), None, None).unwrap();
    assert_eq!(config.files, files);
    assert_eq!(config.delimiter, b',');
    assert!(matches!(config.extract, Extract::Fields(list) if list == vec![0..1, 2..4]));

    let config = configure(files.clone(), "\t", None, None, Some("2")).unwrap();
    assert!(matches!(config.extract, Extract::Chars(list) if list == vec![1..2]));
}

#[test]
fn the_first_fault_of_a_configuration_is_reported() {
    let files = vec![];
    let err = configure(files, ",,", Some("0"), None, None).unwrap_err();
    assert_eq!(err.to_string(), "--delim \",,\" must be a single byte");
    let err = configure(vec![], ",", Some("1"), Some("0"), Some("a")).unwrap_err();
    assert_eq!(err.to_string(), "illegal list value: \"0\"");
    let err = configure(vec![], ",", None, None, Some("3-2")).unwrap_err();
    assert_eq!(
        err.to_string(),
        "First number in range (3) must be lower than second number (2)"
    );
    let err = configure(vec![], ",", None, None, None).unwrap_err();
    assert_eq!(err.to_string(), "Must have --fields, --bytes, or --chars");
}

#[test]
fn units_are_routed_to_the_extractor_of_the_mode() {
    let record = StringRecord::from(vec!["Captain", "Sham", "12345"]);
    let fields = Extract::Fields(vec![1..2, 0..1]);
    assert_eq!(fields.project_record(&record), Some(vec!["Sham", "Captain"]));
    assert_eq!(fields.project_line("ábc"), None);

    let bytes = Extract::Bytes(vec![0..1]);
    assert_eq!(bytes.project_line("ábc"), Some("\u{fffd}".to_string()));
    assert_eq!(bytes.project_record(&record), None);

    let chars = Extract::Chars(vec![0..1]);
    assert_eq!(chars.project_line("ábc"), Some("á".to_string()));
    assert_eq!(chars.project_record(&record), None);
    assert_eq!(chars.positions(), &vec![0..1]);
}
