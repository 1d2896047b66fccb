use swole::parse_u32;
use swole::regimen::{Regimen, RegimenError};

#[test]
fn plain_decimal_numbers_parse() {
    assert_eq!(parse_u32("0"), Some(0));
    assert_eq!(parse_u32("20"), Some(20));
    assert_eq!(parse_u32("007"), Some(7));
    assert_eq!(parse_u32("4294967295"), Some(u32::MAX));
}

#[test]
fn a_leading_plus_is_accepted() {
    assert_eq!(parse_u32("+5"), Some(5));
    assert_eq!(parse_u32("+0"), Some(0));
}

#[test]
fn non_numbers_do_not_parse() {
    assert_eq!(parse_u32(""), None);
    assert_eq!(parse_u32("+"), None);
    assert_eq!(parse_u32("abc"), None);
    assert_eq!(parse_u32("-1"), None);
    assert_eq!(parse_u32("12a"), None);
    assert_eq!(parse_u32(" 5"), None);
    assert_eq!(parse_u32("5 "), None);
    assert_eq!(parse_u32("++1"), None);
}

#[test]
fn values_past_u32_do_not_parse() {
    assert_eq!(parse_u32("4294967296"), None);
    assert_eq!(parse_u32("99999999999999999999"), None);
}

#[test]
fn parsing_matches_what_str_parse_accepts() {
    for s in ["0", "20", "007", "+5", "4294967295", "4294967296", "", "+", "abc", "-1", "12a"] {
        assert_eq!(parse_u32(s), s.parse::<u32>().ok(), "on {:?}", s);
    }
}

#[test]
fn a_goal_that_is_not_a_number_is_refused() {
    let mut reg = Regimen::new_on(1);
    assert_eq!(reg.add("curls", "twenty"), Err(RegimenError::InvalidNumber));
    assert!(reg.entries.is_empty());
    assert_eq!(reg.add("curls", "20"), Ok(()));
    assert_eq!(reg.done("curls", "a few"), Err(RegimenError::InvalidNumber));
    assert_eq!(reg.entries[0].exercise.history, vec![0]);
}
