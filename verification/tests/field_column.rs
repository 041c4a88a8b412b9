use rew::column::Column;
use rew::field::Field;
use rew::parse::{AnyString, Error, ErrorKind, Separator};
use rew::reader::Reader;
use rew::regexp::RegexHolder;

fn text(value: &str) -> Separator {
    Separator::String(value.to_string())
}

fn regex(pattern: &str) -> Separator {
    Separator::Regex(RegexHolder::compile(pattern).unwrap())
}

fn field(index: usize, separator: Separator) -> Field {
    Field { index, separator }
}

fn column(index: usize, separator: Separator) -> Column {
    Column { index, separator }
}

fn err<T>(kind: ErrorKind, start: usize, end: usize) -> Result<T, Error> {
    Err(Error { kind, range: start..end })
}

#[test]
fn field_display() {
    assert_eq!(field(1, text("_")).to_display_string(), "field #2 ('_' separator)");
    assert_eq!(
        field(1, regex("[0-9]+")).to_display_string(),
        "field #2 (regular expression '[0-9]+' separator)"
    );
}

#[test]
fn column_display() {
    assert_eq!(column(1, text("_")).to_display_string(), "column #2 ('_' separator)");
    assert_eq!(
        column(1, regex("[0-9]+")).to_display_string(),
        "column #2 (regular expression '[0-9]+' separator)"
    );
}

#[test]
fn separator_display_escapes_text() {
    assert_eq!(text("\t").to_display_string(), "'\\t'");
}

#[test]
fn field_parse_err() {
    let cases: Vec<(&str, ErrorKind, usize, usize)> = vec![
        ("", ErrorKind::ExpectedNumber, 0, 0),
        ("x", ErrorKind::ExpectedNumber, 0, 1),
        ("0", ErrorKind::IndexZero, 0, 1),
        ("1:", ErrorKind::ExpectedFieldSeparator, 2, 2),
        ("1/", ErrorKind::ExpectedFieldSeparator, 2, 2),
        ("1/[0", ErrorKind::RegexInvalid(AnyString::any()), 2, 4),
    ];
    for (input, kind, start, end) in cases {
        assert_eq!(Field::parse(&mut Reader::from(input), &text(" ")), err(kind, start, end));
    }
}

#[test]
fn field_parse_ok() {
    assert_eq!(Field::parse(&mut Reader::from("1"), &text("default")), Ok(field(0, text("default"))));
    assert_eq!(Field::parse(&mut Reader::from("10:custom"), &text("default")), Ok(field(9, text("custom"))));
    assert_eq!(Field::parse(&mut Reader::from("1"), &regex("\\s+")), Ok(field(0, regex("\\s+"))));
    assert_eq!(Field::parse(&mut Reader::from("10/[0-9]+"), &regex("\\s+")), Ok(field(9, regex("[0-9]+"))));
}

#[test]
fn field_get_string() {
    let cases: Vec<(&str, usize, &str, &str)> = vec![
        ("a b c", 0, "", ""),
        ("a b c", 0, " ", "a"),
        (" a b", 0, " ", ""),
        ("a b ", 0, " ", "a"),
        ("a b c", 2, " ", "c"),
        (" a b", 2, " ", "b"),
        ("a b ", 2, " ", ""),
        ("a b", 2, " ", ""),
    ];
    for (input, index, separator, output) in cases {
        assert_eq!(field(index, text(separator)).get(input), output);
    }
}

#[test]
fn field_get_rev_string() {
    let cases: Vec<(&str, usize, &str, &str)> = vec![
        ("a b c", 0, "", ""),
        ("a b c", 0, " ", "c"),
        ("a b ", 0, " ", ""),
        (" a b", 0, " ", "b"),
        ("a b c", 2, " ", "a"),
        ("a b ", 2, " ", "a"),
        (" a b", 2, " ", ""),
        ("a b", 2, " ", ""),
    ];
    for (input, index, separator, output) in cases {
        assert_eq!(field(index, text(separator)).get_rev(input), output);
    }
}

#[test]
fn field_get_regex() {
    let cases: Vec<(&str, usize, &str, &str)> = vec![
        ("a\t\tb\t\tc", 0, "", ""),
        ("a\t\tb\t\tc", 0, "\\s+", "a"),
        ("\t\ta\t\tb", 0, "\\s+", ""),
        ("a\t\tb\t\t", 0, "\\s+", "a"),
        ("a\t\tb\t\tc", 2, "\\s+", "c"),
        ("\t\ta\t\tb", 2, "\\s+", "b"),
        ("a\t\tb\t\t", 2, "\\s+", ""),
        ("a\t\tb", 2, "\\s+", ""),
    ];
    for (input, index, separator, output) in cases {
        assert_eq!(field(index, regex(separator)).get(input), output);
    }
}

#[test]
fn field_get_rev_regex() {
    let cases: Vec<(&str, usize, &str, &str)> = vec![
        ("a\t\tb\t\tc", 0, "", ""),
        ("a\t\tb\t\tc", 0, "\\s+", "c"),
        ("a\t\tb\t\t", 0, "\\s+", ""),
        ("\t\ta\t\tb", 0, "\\s+", "b"),
        ("a\t\tb\t\tc", 2, "\\s+", "a"),
        ("a\t\tb\t\t", 2, "\\s+", "a"),
        ("\t\ta\t\tb", 2, "\\s+", ""),
        ("a\t\tb", 2, "\\s+", ""),
    ];
    for (input, index, separator, output) in cases {
        assert_eq!(field(index, regex(separator)).get_rev(input), output);
    }
}

#[test]
fn column_parse_err() {
    let cases: Vec<(&str, ErrorKind, usize, usize)> = vec![
        ("", ErrorKind::ExpectedNumber, 0, 0),
        ("x", ErrorKind::ExpectedNumber, 0, 1),
        ("0", ErrorKind::IndexZero, 0, 1),
        ("1:", ErrorKind::ExpectedColumnSeparator, 2, 2),
    ];
    for (input, kind, start, end) in cases {
        assert_eq!(Column::parse(&mut Reader::from(input), &text("\t")), err(kind, start, end));
    }
    assert_eq!(
        Column::parse(&mut Reader::from("1/"), &regex("\\s+")),
        err(ErrorKind::ExpectedColumnSeparator, 2, 2)
    );
    assert_eq!(
        Column::parse(&mut Reader::from("1/[0-9"), &regex("\\s+")),
        err(ErrorKind::RegexInvalid(AnyString::any()), 2, 6)
    );
}

#[test]
fn column_parse_ok() {
    assert_eq!(Column::parse(&mut Reader::from("1"), &text("\t")), Ok(column(0, text("\t"))));
    assert_eq!(Column::parse(&mut Reader::from("10:abc"), &text("\t")), Ok(column(9, text("abc"))));
    assert_eq!(Column::parse(&mut Reader::from("1"), &regex("\\s+")), Ok(column(0, regex("\\s+"))));
    assert_eq!(Column::parse(&mut Reader::from("10/[0-9]+"), &regex("\\s+")), Ok(column(9, regex("[0-9]+"))));
}

#[test]
fn column_get_and_backward() {
    assert_eq!(column(0, text(" ")).get("a b c"), "a");
    assert_eq!(column(2, text(" ")).get("a b ", ), "");
    assert_eq!(column(0, text(" ")).get_backward("a b c"), "c");
    assert_eq!(column(2, text(" ")).get_backward("a b "), "a");
    assert_eq!(column(1, regex("[, ]+")).get("a , b , c , d"), "b");
    assert_eq!(column(1, regex("[, ]+")).get_backward("a , b , c , d"), "c");
    assert_eq!(column(1, text(",")).get("a , b , c , d"), " b ");
    assert_eq!(column(1, text(",")).get_backward("a , b , c , d"), " c ");
    assert_eq!(column(5, regex("\\s+")).get_backward("a b"), "");
}

#[test]
fn backward_search_differs_for_overlapping_separator() {
    // Searching "aa" from the right in "aaa" finds the last two characters.
    assert_eq!(field(0, text("aa")).get("aaa"), "");
    assert_eq!(field(1, text("aa")).get("aaa"), "a");
    assert_eq!(field(0, text("aa")).get_rev("aaa"), "");
    assert_eq!(field(1, text("aa")).get_rev("aaa"), "a");
}

#[test]
fn expected_separator_messages() {
    assert_eq!(ErrorKind::ExpectedFieldSeparator.to_message(), "Expected field separator");
    assert_eq!(ErrorKind::ExpectedColumnSeparator.to_message(), "Expected column separator");
}

#[test]
fn column_get_backward_mirrors_get() {
    let separators = [text("_"), text(""), regex("_+"), regex("[0-9]")];
    for value in ["a_b__c_", "", "x1y22z", "áé"] {
        for separator in &separators {
            let n = separator.split(value).len();
            for index in 0..n + 2 {
                let backward = column(index, separator.duplicate()).get_backward(value);
                let expected = if index < n { column(n - 1 - index, separator.duplicate()).get(value) } else { String::new() };
                assert_eq!(backward, expected, "{} {}", value, index);
            }
        }
    }
}
