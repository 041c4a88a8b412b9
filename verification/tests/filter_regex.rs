use rew::filter::regexp::{get_capture, get_match, replace_all, replace_first};
use rew::regexp::{add_capture_group_brackets, RegexHolder};

fn holder(pattern: &str) -> RegexHolder {
    RegexHolder::compile(pattern).unwrap()
}

fn make_regex_captures() -> Option<Vec<Option<String>>> {
    holder("(.*)").captures("abc")
}

#[test]
fn regex_empty() {
    assert_eq!(get_match(String::new(), &holder("\\d+")), Ok(String::new()));
}

#[test]
fn regex_none() {
    assert_eq!(get_match(String::from("abc"), &holder("\\d+")), Ok(String::new()));
    assert_eq!(get_capture(None, 1), Ok(String::new()));
}

#[test]
fn first() {
    assert_eq!(get_match(String::from("abc123def456"), &holder("\\d+")), Ok(String::from("123")));
}

#[test]
fn regex_empty_with_empty() {
    assert_eq!(replace_first(String::new(), &holder("\\d+"), ""), Ok(String::new()));
    assert_eq!(replace_all(String::new(), &holder("\\d+"), ""), Ok(String::new()));
}

#[test]
fn regex_empty_with_nonempty() {
    assert_eq!(replace_first(String::new(), &holder("(\\d)(\\d+)"), "_$2$1_"), Ok(String::new()));
    assert_eq!(replace_all(String::new(), &holder("(\\d)(\\d+)"), "_$2$1_"), Ok(String::new()));
}

#[test]
fn regex_none_with_empty() {
    assert_eq!(replace_first(String::from("abc"), &holder("\\d+"), ""), Ok(String::from("abc")));
    assert_eq!(replace_all(String::from("abc"), &holder("\\d+"), ""), Ok(String::from("abc")));
}

#[test]
fn regex_none_with_nonempty() {
    assert_eq!(replace_first(String::from("abc"), &holder("(\\d)(\\d+)"), "_$2$1_"), Ok(String::from("abc")));
    assert_eq!(replace_all(String::from("abc"), &holder("(\\d)(\\d+)"), "_$2$1_"), Ok(String::from("abc")));
}

#[test]
fn regex_first_with_empty() {
    assert_eq!(replace_first(String::from("abc123def456"), &holder("\\d+"), ""), Ok(String::from("abcdef456")));
}

#[test]
fn regex_first_with_nonempty() {
    assert_eq!(
        replace_first(String::from("abc123def456"), &holder("(\\d)(\\d+)"), "_$2$1_"),
        Ok(String::from("abc_231_def456"))
    );
}

#[test]
fn regex_all_with_empty() {
    assert_eq!(replace_all(String::from("abc123def456"), &holder("\\d+"), ""), Ok(String::from("abcdef")));
}

#[test]
fn regex_all_with_nonempty() {
    assert_eq!(
        replace_all(String::from("abc123def456"), &holder("(\\d)(\\d+)"), "_$2$1_"),
        Ok(String::from("abc_231_def_564_"))
    );
}

#[test]
fn some() {
    assert_eq!(get_capture(make_regex_captures().as_ref(), 1), Ok(String::from("abc")));
}

#[test]
fn some_invalid() {
    assert_eq!(get_capture(make_regex_captures().as_ref(), 2), Ok(String::new()));
}

#[test]
fn zero() {
    assert_eq!(add_capture_group_brackets("ab"), "ab");
}

#[test]
fn one() {
    assert_eq!(add_capture_group_brackets("a$1b"), "a${1}b");
}

#[test]
fn multiple() {
    assert_eq!(add_capture_group_brackets("$1a$12b$123"), "${1}a${12}b${123}");
}

#[test]
fn match_in_some() {
    assert_eq!(get_match(String::from("abc123def456"), &holder("[0-9]+")), Ok(String::from("123")));
}

#[test]
fn match_in_empty() {
    assert_eq!(get_match(String::new(), &holder("[0-9]+")), Ok(String::new()));
}

#[test]
fn replace_first_in_some() {
    assert_eq!(
        replace_first(String::from("abc123def456"), &holder("([0-9])([0-9]+)"), "_$2$1_"),
        Ok(String::from("abc_231_def456"))
    );
}

#[test]
fn replace_first_in_empty() {
    assert_eq!(replace_first(String::new(), &holder("([0-9])([0-9]+)"), "_$2$1_"), Ok(String::new()));
}

#[test]
fn replace_all_in_some() {
    assert_eq!(
        replace_all(String::from("abc123def456"), &holder("([0-9])([0-9]+)"), "_$2$1_"),
        Ok(String::from("abc_231_def_564_"))
    );
}

#[test]
fn replace_all_in_empty() {
    assert_eq!(replace_all(String::new(), &holder("([0-9])([0-9]+)"), "_$2$1_"), Ok(String::new()));
}

#[test]
fn remove_first_in_some() {
    assert_eq!(replace_first(String::from("abc123def456"), &holder("[0-9]+"), ""), Ok(String::from("abcdef456")));
}

#[test]
fn remove_first_in_empty() {
    assert_eq!(replace_first(String::new(), &holder("[0-9]+"), ""), Ok(String::new()));
}

#[test]
fn remove_all_in_some() {
    assert_eq!(replace_all(String::from("abc123def456"), &holder("[0-9]+"), ""), Ok(String::from("abcdef")));
}

#[test]
fn remove_all_in_empty() {
    assert_eq!(replace_all(String::new(), &holder("[0-9]+"), ""), Ok(String::new()));
}

#[test]
fn adds_capture_group_brackets() {
    assert_eq!(add_capture_group_brackets("ab"), "ab");
    assert_eq!(add_capture_group_brackets("a$1b"), "a${1}b");
    assert_eq!(add_capture_group_brackets("$1a$12b$123"), "${1}a${12}b${123}");
}
