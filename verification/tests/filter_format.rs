use rew::padding::Padding;
use rew::filter::format::{
    left_pad, left_pad_repeat, remove_non_ascii, right_pad, right_pad_repeat, to_ascii, to_lowercase, to_uppercase,
    trim,
};

#[test]
fn trim_not_trimmed() {
    assert_eq!(trim(String::from("  abc  ")), Ok(String::from("abc")));
}

#[test]
fn trim_trimmed() {
    assert_eq!(trim(String::from("abc")), Ok(String::from("abc")));
}

#[test]
fn trim_empty() {
    assert_eq!(trim(String::new()), Ok(String::new()));
}

#[test]
fn convert_to_lowercase() {
    assert_eq!(to_lowercase(String::from("ábčdÁBČD")), Ok(String::from("ábčdábčd")));
}

#[test]
fn convert_empty_to_lowercase() {
    assert_eq!(to_lowercase(String::new()), Ok(String::new()));
}

#[test]
fn convert_some_to_uppercase() {
    assert_eq!(to_uppercase(String::from("ábčdÁBČD")), Ok(String::from("ÁBČDÁBČD")));
}

#[test]
fn convert_empty_to_uppercase() {
    assert_eq!(to_uppercase(String::new()), Ok(String::new()));
}

#[test]
fn convert_some_to_ascii() {
    assert_eq!(to_ascii(String::from("ábčdÁBČD")), Ok(String::from("abcdABCD")));
}

#[test]
fn convert_empty_to_ascii() {
    assert_eq!(to_ascii(String::new()), Ok(String::new()));
}

#[test]
fn remove_non_ascii_from_some() {
    assert_eq!(remove_non_ascii(String::from("ábčdÁBČD")), Ok(String::from("bdBD")));
}

#[test]
fn remove_non_ascii_from_empty() {
    assert_eq!(remove_non_ascii(String::new()), Ok(String::new()));
}

#[test]
fn left_pad_empty() {
    assert_eq!(left_pad(String::new(), "0123"), Ok(String::from("0123")));
}

#[test]
fn left_pad_some() {
    assert_eq!(left_pad(String::from("ab"), "0123"), Ok(String::from("01ab")));
}

#[test]
fn left_pad_none() {
    assert_eq!(left_pad(String::from("abcd"), "0123"), Ok(String::from("abcd")));
}

#[test]
fn left_pad_with_empty() {
    assert_eq!(left_pad(String::from("abcd"), ""), Ok(String::from("abcd")));
}

#[test]
fn left_pad_repeated() {
    assert_eq!(left_pad_repeat(String::from("a"), "01", 2), Ok(String::from("010a")));
}

#[test]
fn left_pad_repeated_zero_times() {
    assert_eq!(left_pad_repeat(String::from("a"), "01", 0), Ok(String::from("a")));
}

#[test]
fn right_pad_empty() {
    assert_eq!(right_pad(String::new(), "0123"), Ok(String::from("0123")));
}

#[test]
fn right_pad_some() {
    assert_eq!(right_pad(String::from("ab"), "0123"), Ok(String::from("ab23")));
}

#[test]
fn right_pad_none() {
    assert_eq!(right_pad(String::from("abcd"), "0123"), Ok(String::from("abcd")));
}

#[test]
fn right_pad_with_empty() {
    assert_eq!(right_pad(String::from("abcd"), ""), Ok(String::from("abcd")));
}

#[test]
fn right_pad_repeated() {
    assert_eq!(right_pad_repeat(String::from("a"), "01", 2), Ok(String::from("a101")));
}

#[test]
fn right_pad_repeated_zero_times() {
    assert_eq!(right_pad_repeat(String::from("a"), "01", 0), Ok(String::from("a")));
}

#[test]
fn ascii_padding_formula() {
    for value in ["", "a", "abc", "abcdef"] {
        for padding in ["", "0123", "xyz"] {
            let p = Padding::Fixed(String::from(padding));
            let left = if value.len() < padding.len() {
                format!("{}{}", &padding[..padding.len() - value.len()], value)
            } else {
                String::from(value)
            };
            let right = if value.len() < padding.len() {
                format!("{}{}", value, &padding[value.len()..])
            } else {
                String::from(value)
            };
            assert_eq!(p.apply_left(String::from(value)), left);
            assert_eq!(p.apply_right(String::from(value)), right);
        }
    }
}
