use textutils::tail::TakeValue::{PlusZero, TakeNum};
use textutils::tail::{get_start_index, parse_num};

#[test]
fn test_parse_num_ok() {
    // Every unsigned number counts from the end
    assert_eq!(parse_num("3"), Ok(TakeNum(-3)));
    assert_eq!(parse_num("+3"), Ok(TakeNum(3)));
    assert_eq!(parse_num("-3"), Ok(TakeNum(-3)));
    assert_eq!(parse_num("0"), Ok(TakeNum(0)));
    assert_eq!(parse_num("+0"), Ok(PlusZero));
    assert_eq!(parse_num(&i64::MAX.to_string()), Ok(TakeNum(i64::MIN + 1)));
    assert_eq!(
        parse_num(&(i64::MIN + 1).to_string()),
        Ok(TakeNum(i64::MIN + 1))
    );
    assert_eq!(
        parse_num(&format!("+{}", i64::MAX)),
        Ok(TakeNum(i64::MAX))
    );
    assert_eq!(parse_num(&i64::MIN.to_string()), Ok(TakeNum(i64::MIN)));
}

#[test]
fn test_parse_num_ng() {
    for input in ["3.14", "foo"] {
        let res = parse_num(input);
        assert!(res.is_err());
        assert_eq!(res.unwrap_err().to_string(), input);
    }
}

#[test]
fn test_get_start_index() {
    assert_eq!(get_start_index(&PlusZero, 0), None);
    assert_eq!(get_start_index(&PlusZero, 1), Some(0));
    assert_eq!(get_start_index(&TakeNum(0), 1), None);
    assert_eq!(get_start_index(&TakeNum(1), 0), None);
    assert_eq!(get_start_index(&TakeNum(2), 1), None);
    assert_eq!(get_start_index(&TakeNum(1), 10), Some(0));
    assert_eq!(get_start_index(&TakeNum(2), 10), Some(1));
    assert_eq!(get_start_index(&TakeNum(3), 10), Some(2));
    assert_eq!(get_start_index(&TakeNum(-1), 10), Some(9));
    assert_eq!(get_start_index(&TakeNum(-2), 10), Some(8));
    assert_eq!(get_start_index(&TakeNum(-3), 10), Some(7));
    assert_eq!(get_start_index(&TakeNum(-20), 10), Some(0));
}

#[test]
fn parse_num_at_the_limits() {
    assert_eq!(parse_num("9223372036854775808"), Err("9223372036854775808".to_string()));
    assert_eq!(parse_num("+9223372036854775808"), Err("+9223372036854775808".to_string()));
    assert_eq!(parse_num("-9223372036854775809"), Err("-9223372036854775809".to_string()));
    assert_eq!(parse_num("-0"), Ok(TakeNum(0)));
    assert_eq!(parse_num("+"), Err("+".to_string()));
    assert_eq!(parse_num("-"), Err("-".to_string()));
    assert_eq!(parse_num(""), Err("".to_string()));
    assert_eq!(parse_num("+-3"), Err("+-3".to_string()));
    assert_eq!(parse_num("0005"), Ok(TakeNum(-5)));
}

#[test]
fn get_start_index_at_the_limits() {
    assert_eq!(get_start_index(&TakeNum(i64::MIN), i64::MAX), Some(0));
    assert_eq!(get_start_index(&TakeNum(i64::MAX), i64::MAX), Some(i64::MAX as u64 - 1));
    assert_eq!(get_start_index(&TakeNum(-1), i64::MAX), Some(i64::MAX as u64 - 1));
    assert_eq!(get_start_index(&TakeNum(i64::MIN), i64::MIN), Some(0));
    assert_eq!(get_start_index(&TakeNum(5), -1), None);
    assert_eq!(get_start_index(&PlusZero, -1), None);
}
