use rew::filter::string::{replace_all, replace_empty, replace_first};

#[test]
fn string_empty_with_empty() {
    assert_eq!(replace_first(String::new(), "ab", ""), Ok(String::new()));
    assert_eq!(replace_all(String::new(), "ab", ""), Ok(String::new()));
    assert_eq!(replace_empty(String::new(), ""), Ok(String::new()));
}

#[test]
fn string_empty_with_nonempty() {
    assert_eq!(replace_first(String::new(), "ab", "x"), Ok(String::new()));
    assert_eq!(replace_all(String::new(), "ab", "x"), Ok(String::new()));
    assert_eq!(replace_empty(String::new(), "def"), Ok(String::from("def")));
}

#[test]
fn string_none_with_empty() {
    assert_eq!(replace_first(String::from("cd"), "ab", ""), Ok(String::from("cd")));
    assert_eq!(replace_all(String::from("cd"), "ab", ""), Ok(String::from("cd")));
}

#[test]
fn string_none_with_nonempty() {
    assert_eq!(replace_first(String::from("cd"), "ab", "x"), Ok(String::from("cd")));
    assert_eq!(replace_all(String::from("cd"), "ab", "x"), Ok(String::from("cd")));
}

#[test]
fn string_first_with_empty() {
    assert_eq!(replace_first(String::from("abcd_abcd"), "ab", ""), Ok(String::from("cd_abcd")));
    assert_eq!(replace_all(String::from("abcd_abcd"), "ab", ""), Ok(String::from("cd_cd")));
}

#[test]
fn string_first_with_nonempty() {
    assert_eq!(replace_first(String::from("abcd_abcd"), "ab", "x"), Ok(String::from("xcd_abcd")));
    assert_eq!(replace_all(String::from("abcd_abcd"), "ab", "x"), Ok(String::from("xcd_xcd")));
}

#[test]
fn string_nonempty_with_empty() {
    assert_eq!(replace_empty(String::from("abc"), ""), Ok(String::from("abc")));
}

#[test]
fn string_nonempty_with_nonempty() {
    assert_eq!(replace_empty(String::from("abc"), "def"), Ok(String::from("abc")));
}
