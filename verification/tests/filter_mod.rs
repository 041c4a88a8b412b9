use regex::Regex;
use rew::chars::Char;
use rew::column::Column;
use rew::eval::Context;
use rew::filter::Filter;
use rew::number::NumberRange;
use rew::padding::Padding;
use rew::parse::{AnyString, Config, Error, ErrorKind, Result, Separator};
use rew::reader::Reader;
use rew::regexp::RegexHolder;
use rew::repetition::Repetition;
use rew::substitution::{Empty, Substitution};
use rew::substr::CharIndexRange;
use rew::switch::{Case, RegexSwitch};

fn holder(pattern: &str) -> RegexHolder {
    RegexHolder::compile(pattern).unwrap()
}

fn config() -> Config {
    Config { escape: '%', separator: Separator::Regex(holder("\\s+")) }
}

fn parse(string: &str) -> Result<Filter> {
    Filter::parse(&mut Reader::from(string), &config())
}

fn make_eval_context() -> Context {
    Context {
        working_dir: String::from("current_dir"),
        local_counter: 1,
        global_counter: 2,
        regex_captures: holder("(.*)").captures("abc"),
        expression_quotes: None,
    }
}

fn assert_ok_uuid(result: std::result::Result<String, rew::eval::ErrorKind>) {
    let value = result.expect("Expected Ok result");
    let regex = Regex::new("^[0-9a-f]{8}-[0-9a-f]{4}-4[0-9a-f]{3}-[89ab][0-9a-f]{3}-[0-9a-f]{12}$").unwrap();
    assert!(regex.is_match(&value), "{} is UUID v4", value);
}

#[test]
fn mod_empty() {
    assert_eq!(parse(""), Err(Error { kind: ErrorKind::ExpectedFilter, range: 0..0 }));
}

#[test]
fn unknown() {
    assert_eq!(parse("-a"), Err(Error { kind: ErrorKind::UnknownFilter(Char::Raw('-')), range: 0..1 }));
}

#[test]
fn chars_after() {
    let mut reader = Reader::from("a_");
    Filter::parse(&mut reader, &config()).unwrap();
    assert_eq!(reader.position(), 1);
}

#[test]
fn mod_absolute_path() {
    assert_eq!(parse("a"), Ok(Filter::AbsolutePath));
    assert_eq!(
        Filter::AbsolutePath.eval(String::from("root/parent/file.ext"), &make_eval_context()),
        Ok(format!("current_dir{}root/parent/file.ext", std::path::MAIN_SEPARATOR))
    );
    assert_eq!(Filter::AbsolutePath.to_display_string(), "Absolute path");
}

#[test]
fn mod_normalized_path() {
    assert_eq!(parse("p"), Ok(Filter::NormalizedPath));
    assert_eq!(
        Filter::NormalizedPath.eval(String::from("root/parent/../new-parent/./dir/"), &make_eval_context()),
        Ok(format!("root{}new-parent{}dir", std::path::MAIN_SEPARATOR, std::path::MAIN_SEPARATOR))
    );
    assert_eq!(Filter::NormalizedPath.to_display_string(), "Normalized path");
}

#[test]
fn mod_canonical_path() {
    assert_eq!(parse("P"), Ok(Filter::CanonicalPath));
    assert_eq!(Filter::CanonicalPath.to_display_string(), "Canonical path");
}

#[test]
fn mod_parent_directory() {
    assert_eq!(parse("d"), Ok(Filter::ParentDirectory));
    assert_eq!(
        Filter::ParentDirectory.eval(String::from("root/parent/file.ext"), &make_eval_context()),
        Ok(String::from("root/parent"))
    );
    assert_eq!(Filter::ParentDirectory.to_display_string(), "Parent directory");
}

#[test]
fn mod_file_name() {
    assert_eq!(parse("f"), Ok(Filter::FileName));
    assert_eq!(
        Filter::FileName.eval(String::from("root/parent/file.ext"), &make_eval_context()),
        Ok(String::from("file.ext"))
    );
    assert_eq!(Filter::FileName.to_display_string(), "File name");
}

#[test]
fn mod_base_name() {
    assert_eq!(parse("b"), Ok(Filter::BaseName));
    assert_eq!(
        Filter::BaseName.eval(String::from("root/parent/file.ext"), &make_eval_context()),
        Ok(String::from("file"))
    );
    assert_eq!(Filter::BaseName.to_display_string(), "Base name");
}

#[test]
fn mod_extension() {
    assert_eq!(parse("e"), Ok(Filter::Extension));
    assert_eq!(
        Filter::Extension.eval(String::from("root/parent/file.ext"), &make_eval_context()),
        Ok(String::from("ext"))
    );
    assert_eq!(Filter::Extension.to_display_string(), "Extension");
}

#[test]
fn mod_extension_with_dot() {
    assert_eq!(parse("E"), Ok(Filter::ExtensionWithDot));
    assert_eq!(
        Filter::ExtensionWithDot.eval(String::from("root/parent/file.ext"), &make_eval_context()),
        Ok(String::from(".ext"))
    );
}

#[test]
fn extension_with_dor() {
    assert_eq!(Filter::ExtensionWithDot.to_display_string(), "Extension with dot");
}

#[test]
fn mod_replace_first() {
    assert_eq!(parse("r"), Err(Error { kind: ErrorKind::ExpectedSubstitution, range: 1..1 }));
    assert_eq!(
        parse("r/ab"),
        Ok(Filter::ReplaceFirst(Substitution { target: String::from("ab"), replacement: String::new() }))
    );
    assert_eq!(
        parse("r/ab/cd"),
        Ok(Filter::ReplaceFirst(Substitution { target: String::from("ab"), replacement: String::from("cd") }))
    );
    assert_eq!(
        Filter::ReplaceFirst(Substitution { target: String::from("ab"), replacement: String::from("x") })
            .eval(String::from("abcd_abcd"), &make_eval_context()),
        Ok(String::from("xcd_abcd"))
    );
    assert_eq!(
        Filter::ReplaceFirst(Substitution { target: String::from("a"), replacement: String::from("b") })
            .to_display_string(),
        "Replace first 'a' with 'b'"
    );
}

#[test]
fn mod_replace_all() {
    assert_eq!(parse("R"), Err(Error { kind: ErrorKind::ExpectedSubstitution, range: 1..1 }));
    assert_eq!(
        parse("R/ab"),
        Ok(Filter::ReplaceAll(Substitution { target: String::from("ab"), replacement: String::new() }))
    );
    assert_eq!(
        parse("R/ab/cd"),
        Ok(Filter::ReplaceAll(Substitution { target: String::from("ab"), replacement: String::from("cd") }))
    );
    assert_eq!(
        Filter::ReplaceAll(Substitution { target: String::from("ab"), replacement: String::from("x") })
            .eval(String::from("abcd_abcd"), &make_eval_context()),
        Ok(String::from("xcd_xcd"))
    );
    assert_eq!(
        Filter::ReplaceAll(Substitution { target: String::from("a"), replacement: String::from("b") })
            .to_display_string(),
        "Replace all 'a' with 'b'"
    );
}

#[test]
fn mod_replace_empty() {
    assert_eq!(parse("?abc"), Ok(Filter::ReplaceEmpty(Substitution { target: Empty, replacement: String::from("abc") })));
    assert_eq!(
        Filter::ReplaceEmpty(Substitution { target: Empty, replacement: String::from("xyz") }).eval(String::new(), &make_eval_context()),
        Ok(String::from("xyz"))
    );
    assert_eq!(Filter::ReplaceEmpty(Substitution { target: Empty, replacement: String::from("abc") }).to_display_string(), "Replace empty with 'abc'");
}

#[test]
fn mod_trim() {
    assert_eq!(parse("t"), Ok(Filter::Trim));
    assert_eq!(Filter::Trim.eval(String::from(" abcd "), &make_eval_context()), Ok(String::from("abcd")));
    assert_eq!(Filter::Trim.to_display_string(), "Trim");
}

#[test]
fn mod_to_ascii() {
    assert_eq!(parse("i"), Ok(Filter::ToAscii));
    assert_eq!(
        Filter::ToAscii.eval(String::from("ábčdÁBČD"), &make_eval_context()),
        Ok(String::from("abcdABCD"))
    );
    assert_eq!(Filter::ToAscii.to_display_string(), "To ASCII");
}

#[test]
fn mod_remove_non_ascii() {
    assert_eq!(parse("I"), Ok(Filter::RemoveNonAscii));
    assert_eq!(
        Filter::RemoveNonAscii.eval(String::from("ábčdÁBČD"), &make_eval_context()),
        Ok(String::from("bdBD"))
    );
    assert_eq!(Filter::RemoveNonAscii.to_display_string(), "Remove non-ASCII");
}

#[test]
fn mod_left_pad() {
    assert_eq!(
        parse("<abc"),
        Err(Error { kind: ErrorKind::PaddingPrefixInvalid('<', Some(Char::Raw('a'))), range: 1..2 })
    );
    assert_eq!(parse("<<abc"), Ok(Filter::LeftPad(Padding::Fixed(String::from("abc")))));
    assert_eq!(
        parse("<10:abc"),
        Ok(Filter::LeftPad(Padding::Repeated(Repetition { count: 10, value: String::from("abc") })))
    );
    assert_eq!(
        Filter::LeftPad(Padding::Fixed(String::from("0123"))).eval(String::from("ab"), &make_eval_context()),
        Ok(String::from("01ab"))
    );
    assert_eq!(
        Filter::LeftPad(Padding::Repeated(Repetition { count: 3, value: String::from("01") }))
            .eval(String::from("ab"), &make_eval_context()),
        Ok(String::from("0101ab"))
    );
    assert_eq!(Filter::LeftPad(Padding::Fixed(String::from("abc"))).to_display_string(), "Left pad with 'abc'");
    assert_eq!(
        Filter::LeftPad(Padding::Repeated(Repetition { count: 5, value: String::from("abc") })).to_display_string(),
        "Left pad with 5x 'abc'"
    );
}

#[test]
fn mod_right_pad() {
    assert_eq!(
        parse(">abc"),
        Err(Error { kind: ErrorKind::PaddingPrefixInvalid('>', Some(Char::Raw('a'))), range: 1..2 })
    );
    assert_eq!(parse(">>abc"), Ok(Filter::RightPad(Padding::Fixed(String::from("abc")))));
    assert_eq!(
        parse(">10:abc"),
        Ok(Filter::RightPad(Padding::Repeated(Repetition { count: 10, value: String::from("abc") })))
    );
    assert_eq!(
        Filter::RightPad(Padding::Fixed(String::from("0123"))).eval(String::from("ab"), &make_eval_context()),
        Ok(String::from("ab23"))
    );
    assert_eq!(
        Filter::RightPad(Padding::Repeated(Repetition { count: 3, value: String::from("01") }))
            .eval(String::from("ab"), &make_eval_context()),
        Ok(String::from("ab0101"))
    );
    assert_eq!(Filter::RightPad(Padding::Fixed(String::from("abc"))).to_display_string(), "Right pad with 'abc'");
    assert_eq!(
        Filter::RightPad(Padding::Repeated(Repetition { count: 5, value: String::from("abc") })).to_display_string(),
        "Right pad with 5x 'abc'"
    );
}

#[test]
fn mod_repeat() {
    assert_eq!(parse("*3:abc"), Ok(Filter::Repeat(Repetition { count: 3, value: String::from("abc") })));
    assert_eq!(
        Filter::Repeat(Repetition { count: 3, value: String::from("abc") }).eval(String::new(), &make_eval_context()),
        Ok(String::from("abcabcabc"))
    );
    assert_eq!(
        Filter::Repeat(Repetition { count: 5, value: String::from("abc") }).to_display_string(),
        "Repeat 5x 'abc'"
    );
}

#[test]
fn mod_local_counter() {
    assert_eq!(parse("c"), Ok(Filter::LocalCounter));
    assert_eq!(Filter::LocalCounter.eval(String::new(), &make_eval_context()), Ok(String::from("1")));
    assert_eq!(Filter::LocalCounter.to_display_string(), "Local counter");
}

#[test]
fn mod_global_counter() {
    assert_eq!(parse("C"), Ok(Filter::GlobalCounter));
    assert_eq!(Filter::GlobalCounter.eval(String::new(), &make_eval_context()), Ok(String::from("2")));
    assert_eq!(Filter::GlobalCounter.to_display_string(), "Global counter");
}

#[test]
fn mod_random_uuid() {
    assert_eq!(parse("U"), Ok(Filter::RandomUuid));
    assert_ok_uuid(Filter::RandomUuid.eval(String::new(), &make_eval_context()));
    assert_eq!(Filter::RandomUuid.to_display_string(), "Random UUID");
}

#[test]
fn mod_parse_absolute_path() {
    assert_eq!(parse("a"), Ok(Filter::AbsolutePath));
}

#[test]
fn mod_parse_file_name() {
    assert_eq!(parse("f"), Ok(Filter::FileName));
}

#[test]
fn mod_parse_base_name() {
    assert_eq!(parse("b"), Ok(Filter::BaseName));
}

#[test]
fn mod_parse_extension() {
    assert_eq!(parse("e"), Ok(Filter::Extension));
}

#[test]
fn mod_parse_extension_with_dot() {
    assert_eq!(parse("E"), Ok(Filter::ExtensionWithDot));
}

#[test]
fn mod_eval_absolute_path() {
    assert_eq!(
        Filter::AbsolutePath.eval(String::from("root/parent/file.ext"), &make_eval_context()),
        Ok(String::from("current_dir/root/parent/file.ext"))
    );
}

#[test]
fn mod_eval_file_name() {
    assert_eq!(
        Filter::FileName.eval(String::from("root/parent/file.ext"), &make_eval_context()),
        Ok(String::from("file.ext"))
    );
}

#[test]
fn mod_eval_base_name() {
    assert_eq!(
        Filter::BaseName.eval(String::from("root/parent/file.ext"), &make_eval_context()),
        Ok(String::from("file"))
    );
}

#[test]
fn mod_eval_extension() {
    assert_eq!(
        Filter::Extension.eval(String::from("root/parent/file.ext"), &make_eval_context()),
        Ok(String::from("ext"))
    );
}

#[test]
fn mod_eval_extension_with_dot() {
    assert_eq!(
        Filter::ExtensionWithDot.eval(String::from("root/parent/file.ext"), &make_eval_context()),
        Ok(String::from(".ext"))
    );
}

#[test]
fn canonical_path_eval_err() {
    let mut context = make_eval_context();
    context.working_dir = String::from("/no-such-directory-here");
    assert_eq!(
        Filter::CanonicalPath.eval(String::from("non-existent"), &context),
        Err(rew::eval::ErrorKind::CanonicalizationFailed(AnyString::any()))
    );
}

fn index_range_at() -> CharIndexRange {
    CharIndexRange::new(1, Some(2))
}

fn index_range_from() -> CharIndexRange {
    CharIndexRange::new(1, None)
}

fn index_range_between() -> CharIndexRange {
    CharIndexRange::new(1, Some(3))
}

fn index_range_length() -> CharIndexRange {
    CharIndexRange::new(1, Some(4))
}

fn column_global() -> Column {
    Column { index: 1, separator: Separator::Regex(holder("\\s+")) }
}

fn column_string() -> Column {
    Column { index: 1, separator: Separator::String(String::from(",")) }
}

fn column_regex() -> Column {
    Column { index: 1, separator: Separator::Regex(holder("[, ]+")) }
}

fn substitution_empty() -> Substitution<Empty> {
    Substitution { target: Empty, replacement: String::from("x") }
}

fn subst_string_1() -> Substitution<String> {
    Substitution { target: String::from("ab"), replacement: String::new() }
}

fn subst_string_2() -> Substitution<String> {
    Substitution { target: String::from("ab"), replacement: String::from("x") }
}

fn subst_regex_1() -> Substitution<RegexHolder> {
    Substitution { target: holder("[0-9]+"), replacement: String::new() }
}

fn subst_regex_2() -> Substitution<RegexHolder> {
    Substitution { target: holder("[0-9]+"), replacement: String::from("x") }
}

fn regex_switch() -> RegexSwitch {
    RegexSwitch { cases: vec![Case { matcher: holder("[0-9]+"), result: String::from("X") }], default: String::from("Y") }
}

fn repetition() -> Repetition {
    Repetition { count: 2, value: String::from("abc") }
}

fn padding_fixed() -> Padding {
    Padding::Fixed(String::from("abcd"))
}

fn padding_repeated() -> Padding {
    Padding::Repeated(repetition())
}

fn number_range_full() -> NumberRange {
    NumberRange::new(0, None)
}

fn number_range_from() -> NumberRange {
    NumberRange::new(2, None)
}

fn number_range_between() -> NumberRange {
    NumberRange::new(2, Some(11))
}

fn fixture_context() -> Context {
    Context {
        working_dir: String::from("/work"),
        local_counter: 1,
        global_counter: 2,
        regex_captures: holder("(.).(.)").captures("abc"),
        expression_quotes: None,
    }
}

#[test]
fn filter_parse_err() {
    let any = || AnyString::any();
    let cases: Vec<(&str, std::ops::Range<usize>, ErrorKind)> = vec![
        ("", 0..0, ErrorKind::ExpectedFilter),
        ("-", 0..1, ErrorKind::UnknownFilter(Char::Raw('-'))),
        ("#", 1..1, ErrorKind::ExpectedRange),
        ("#-", 2..2, ErrorKind::ExpectedRange),
        ("&", 1..1, ErrorKind::ExpectedNumber),
        ("&-", 2..2, ErrorKind::ExpectedNumber),
        ("&1:", 3..3, ErrorKind::ExpectedColumnSeparator),
        ("&-1:", 4..4, ErrorKind::ExpectedColumnSeparator),
        ("&1/[0-9", 3..7, ErrorKind::RegexInvalid(any())),
        ("&-1/[0-9", 4..8, ErrorKind::RegexInvalid(any())),
        ("r", 1..1, ErrorKind::ExpectedSubstitution),
        ("R", 1..1, ErrorKind::ExpectedSubstitution),
        ("=", 1..1, ErrorKind::ExpectedRegex),
        ("=[0", 1..3, ErrorKind::RegexInvalid(any())),
        ("s", 1..1, ErrorKind::ExpectedSubstitution),
        ("s/[0/", 2..4, ErrorKind::RegexInvalid(any())),
        ("S", 1..1, ErrorKind::ExpectedSubstitution),
        ("S/[0/", 2..4, ErrorKind::RegexInvalid(any())),
        ("@:[0:X:Y", 2..4, ErrorKind::RegexInvalid(any())),
        ("$", 1..1, ErrorKind::ExpectedNumber),
        ("<x", 1..2, ErrorKind::PaddingPrefixInvalid('<', Some(Char::Raw('x')))),
        (">y", 1..2, ErrorKind::PaddingPrefixInvalid('>', Some(Char::Raw('y')))),
    ];
    for (input, range, kind) in cases {
        assert_eq!(parse(input), Err(Error { kind, range }), "{}", input);
    }
}

#[test]
fn filter_parse_ok() {
    let cases: Vec<(&str, Filter)> = vec![
        ("w", Filter::WorkingDir),
        ("a", Filter::AbsolutePath),
        ("A", Filter::RelativePath),
        ("p", Filter::NormalizedPath),
        ("P", Filter::CanonicalPath),
        ("d", Filter::ParentDirectory),
        ("D", Filter::RemoveLastName),
        ("f", Filter::FileName),
        ("F", Filter::LastName),
        ("b", Filter::BaseName),
        ("B", Filter::RemoveExtension),
        ("e", Filter::Extension),
        ("E", Filter::ExtensionWithDot),
        ("z", Filter::EnsureTrailDirSeparator),
        ("Z", Filter::RemoveTrailDirSeparator),
        ("#2", Filter::Substring(index_range_at())),
        ("#2-", Filter::Substring(index_range_from())),
        ("#2-3", Filter::Substring(index_range_between())),
        ("#2+3", Filter::Substring(index_range_length())),
        ("#-2", Filter::SubstringRev(index_range_at())),
        ("#-2-", Filter::SubstringRev(index_range_from())),
        ("#-2-3", Filter::SubstringRev(index_range_between())),
        ("#-2+3", Filter::SubstringRev(index_range_length())),
        ("&2", Filter::GetColumn(column_global())),
        ("&2:,", Filter::GetColumn(column_string())),
        ("&2/[, ]+", Filter::GetColumn(column_regex())),
        ("&-2", Filter::GetColumnRev(column_global())),
        ("&-2:,", Filter::GetColumnRev(column_string())),
        ("&-2/[, ]+", Filter::GetColumnRev(column_regex())),
        ("r/ab", Filter::ReplaceFirst(subst_string_1())),
        ("r/ab/x", Filter::ReplaceFirst(subst_string_2())),
        ("R/ab", Filter::ReplaceAll(subst_string_1())),
        ("R/ab/x", Filter::ReplaceAll(subst_string_2())),
        ("?x", Filter::ReplaceEmpty(substitution_empty())),
        ("=[0-9]+", Filter::RegexMatch(holder("[0-9]+"))),
        ("s/[0-9]+", Filter::RegexReplaceFirst(subst_regex_1())),
        ("s/[0-9]+/x", Filter::RegexReplaceFirst(subst_regex_2())),
        ("S/[0-9]+", Filter::RegexReplaceAll(subst_regex_1())),
        ("S/[0-9]+/x", Filter::RegexReplaceAll(subst_regex_2())),
        ("@:[0-9]+:X:Y", Filter::RegexSwitch(regex_switch())),
        ("$0", Filter::RegexCapture(0)),
        ("$10", Filter::RegexCapture(10)),
        ("t", Filter::Trim),
        ("v", Filter::ToLowercase),
        ("^", Filter::ToUppercase),
        ("i", Filter::ToAscii),
        ("I", Filter::RemoveNonAscii),
        ("<<abcd", Filter::LeftPad(padding_fixed())),
        ("<2:abc", Filter::LeftPad(padding_repeated())),
        (">>abcd", Filter::RightPad(padding_fixed())),
        (">2:abc", Filter::RightPad(padding_repeated())),
        ("*2:abc", Filter::Repeat(repetition())),
        ("c", Filter::LocalCounter),
        ("C", Filter::GlobalCounter),
        ("u", Filter::RandomNumber(number_range_full())),
        ("u2-", Filter::RandomNumber(number_range_from())),
        ("u2-10", Filter::RandomNumber(number_range_between())),
        ("U", Filter::RandomUuid),
    ];
    for (input, filter) in cases {
        assert_eq!(parse(input), Ok(filter), "{}", input);
    }
}

#[test]
fn filter_parse_refuses_other_characters() {
    for input in ["l", "L", "n2", "N2", "m[0-9]", "1", "x", "-1"] {
        let first = input.chars().next().unwrap();
        assert_eq!(
            parse(input),
            Err(Error { kind: ErrorKind::UnknownFilter(Char::Raw(first)), range: 0..first.len_utf8() }),
            "{}",
            input
        );
    }
}

#[test]
fn filter_keep_chars_after() {
    for (input, position) in [("a_", 1), ("#1-2_", 4), ("#_", 1)] {
        let mut reader = Reader::from(input);
        Filter::parse(&mut reader, &config()).unwrap_or(Filter::FileName);
        assert_eq!(reader.position(), position, "{}", input);
    }
}

#[test]
fn filter_eval_err() {
    assert_eq!(
        Filter::CanonicalPath.eval(String::from("non-existent"), &fixture_context()),
        Err(rew::eval::ErrorKind::CanonicalizationFailed(AnyString::any()))
    );
}

#[test]
fn filter_eval_ok() {
    let cases: Vec<(&str, Filter, &str)> = vec![
        ("", Filter::WorkingDir, "/work"),
        ("b/c.d", Filter::AbsolutePath, "/work/b/c.d"),
        ("a/b/../e/./f/", Filter::NormalizedPath, "a/e/f"),
        ("/b/c.d", Filter::RelativePath, "../b/c.d"),
        ("a/b", Filter::EnsureTrailDirSeparator, "a/b/"),
        ("a/b/c.d", Filter::ParentDirectory, "a/b"),
        ("a/b/c.d", Filter::RemoveLastName, "a/b"),
        ("a/b/c.d", Filter::FileName, "c.d"),
        ("a/b/c.d", Filter::LastName, "c.d"),
        ("a/b/c.d", Filter::BaseName, "c"),
        ("a/b/c.d", Filter::RemoveExtension, "a/b/c"),
        ("a/b/c.d", Filter::Extension, "d"),
        ("a/b/c.d", Filter::ExtensionWithDot, ".d"),
        ("a/b/", Filter::RemoveTrailDirSeparator, "a/b"),
        ("abcde", Filter::Substring(index_range_at()), "b"),
        ("abcde", Filter::Substring(index_range_from()), "bcde"),
        ("abcde", Filter::Substring(index_range_between()), "bc"),
        ("abcde", Filter::Substring(index_range_length()), "bcd"),
        ("abcde", Filter::SubstringRev(index_range_at()), "d"),
        ("abcde", Filter::SubstringRev(index_range_from()), "abcd"),
        ("abcde", Filter::SubstringRev(index_range_between()), "cd"),
        ("abcde", Filter::SubstringRev(index_range_length()), "bcd"),
        ("a , b , c , d", Filter::GetColumn(column_string()), " b "),
        ("a , b , c , d", Filter::GetColumn(column_regex()), "b"),
        ("a , b , c , d", Filter::GetColumnRev(column_string()), " c "),
        ("a , b , c , d", Filter::GetColumnRev(column_regex()), "c"),
        ("abcd_abcd", Filter::ReplaceFirst(subst_string_1()), "cd_abcd"),
        ("abcd_abcd", Filter::ReplaceFirst(subst_string_2()), "xcd_abcd"),
        ("abcd_abcd", Filter::ReplaceAll(subst_string_1()), "cd_cd"),
        ("abcd_abcd", Filter::ReplaceAll(subst_string_2()), "xcd_xcd"),
        ("", Filter::ReplaceEmpty(substitution_empty()), "x"),
        ("a123y", Filter::RegexMatch(holder("[0-9]+")), "123"),
        ("12_34", Filter::RegexReplaceFirst(subst_regex_1()), "_34"),
        ("12_34", Filter::RegexReplaceFirst(subst_regex_2()), "x_34"),
        ("12_34", Filter::RegexReplaceAll(subst_regex_1()), "_"),
        ("12_34", Filter::RegexReplaceAll(subst_regex_2()), "x_x"),
        ("1", Filter::RegexSwitch(regex_switch()), "X"),
        ("a", Filter::RegexSwitch(regex_switch()), "Y"),
        ("", Filter::RegexCapture(1), "a"),
        (" abcd ", Filter::Trim, "abcd"),
        ("ábčdÁBČD", Filter::ToLowercase, "ábčdábčd"),
        ("ábčdÁBČD", Filter::ToUppercase, "ÁBČDÁBČD"),
        ("ábčdÁBČD", Filter::ToAscii, "abcdABCD"),
        ("ábčdÁBČD", Filter::RemoveNonAscii, "bdBD"),
        ("01", Filter::LeftPad(padding_fixed()), "ab01"),
        ("01", Filter::LeftPad(padding_repeated()), "abca01"),
        ("01", Filter::RightPad(padding_fixed()), "01cd"),
        ("01", Filter::RightPad(padding_repeated()), "01cabc"),
        ("", Filter::Repeat(repetition()), "abcabc"),
        ("", Filter::LocalCounter, "1"),
        ("", Filter::GlobalCounter, "2"),
        ("", Filter::RandomNumber(NumberRange::new(0, Some(0))), "0"),
    ];
    for (input, filter, output) in cases {
        assert_eq!(filter.eval(String::from(input), &fixture_context()), Ok(String::from(output)), "{}", input);
    }
    assert_ok_uuid(Filter::RandomUuid.eval(String::new(), &fixture_context()));
}

#[test]
fn filter_display() {
    let cases: Vec<(Filter, &str)> = vec![
        (Filter::WorkingDir, "Working directory"),
        (Filter::AbsolutePath, "Absolute path"),
        (Filter::RelativePath, "Relative path"),
        (Filter::NormalizedPath, "Normalized path"),
        (Filter::CanonicalPath, "Canonical path"),
        (Filter::ParentDirectory, "Parent directory"),
        (Filter::RemoveLastName, "Remove last name"),
        (Filter::FileName, "File name"),
        (Filter::LastName, "Last name"),
        (Filter::BaseName, "Base name"),
        (Filter::RemoveExtension, "Remove extension"),
        (Filter::Extension, "Extension"),
        (Filter::ExtensionWithDot, "Extension with dot"),
        (Filter::EnsureTrailDirSeparator, "Ensure trailing directory separator"),
        (Filter::RemoveTrailDirSeparator, "Remove trailing directory separator"),
        (Filter::Substring(index_range_at()), "Substring from 2..2"),
        (Filter::Substring(index_range_from()), "Substring from 2.."),
        (Filter::Substring(index_range_between()), "Substring from 2..3"),
        (Filter::Substring(index_range_length()), "Substring from 2..4"),
        (Filter::SubstringRev(index_range_at()), "Substring from 2..2 backward"),
        (Filter::SubstringRev(index_range_from()), "Substring from 2.. backward"),
        (Filter::SubstringRev(index_range_between()), "Substring from 2..3 backward"),
        (Filter::SubstringRev(index_range_length()), "Substring from 2..4 backward"),
        (Filter::GetColumn(column_string()), "Get column #2 (',' separator)"),
        (Filter::GetColumn(column_regex()), "Get column #2 (regular expression '[, ]+' separator)"),
        (Filter::GetColumnRev(column_string()), "Get column #2 (',' separator) backward"),
        (Filter::GetColumnRev(column_regex()), "Get column #2 (regular expression '[, ]+' separator) backward"),
        (Filter::ReplaceFirst(subst_string_1()), "Replace first 'ab' with ''"),
        (Filter::ReplaceFirst(subst_string_2()), "Replace first 'ab' with 'x'"),
        (Filter::ReplaceAll(subst_string_1()), "Replace all 'ab' with ''"),
        (Filter::ReplaceAll(subst_string_2()), "Replace all 'ab' with 'x'"),
        (Filter::ReplaceEmpty(substitution_empty()), "Replace empty with 'x'"),
        (Filter::RegexMatch(holder("[0-9]+")), "Match of regular expression '[0-9]+'"),
        (Filter::RegexReplaceFirst(subst_regex_1()), "Replace first match of regular expression '[0-9]+' with ''"),
        (Filter::RegexReplaceFirst(subst_regex_2()), "Replace first match of regular expression '[0-9]+' with 'x'"),
        (Filter::RegexReplaceAll(subst_regex_1()), "Replace all matches of regular expression '[0-9]+' with ''"),
        (Filter::RegexReplaceAll(subst_regex_2()), "Replace all matches of regular expression '[0-9]+' with 'x'"),
        (
            Filter::RegexSwitch(regex_switch()),
            "Regular expression switch with variable output:\n\n    if input matches '[0-9]+'\n        output is 'X'\n    else\n        output is 'Y'",
        ),
        (Filter::RegexCapture(1), "Capture group #1 of a global regular expression"),
        (Filter::Trim, "Trim"),
        (Filter::ToLowercase, "To lowercase"),
        (Filter::ToUppercase, "To uppercase"),
        (Filter::ToAscii, "To ASCII"),
        (Filter::RemoveNonAscii, "Remove non-ASCII"),
        (Filter::LeftPad(padding_fixed()), "Left pad with 'abcd'"),
        (Filter::LeftPad(padding_repeated()), "Left pad with 2x 'abc'"),
        (Filter::RightPad(padding_fixed()), "Right pad with 'abcd'"),
        (Filter::RightPad(padding_repeated()), "Right pad with 2x 'abc'"),
        (Filter::Repeat(repetition()), "Repeat 2x 'abc'"),
        (Filter::LocalCounter, "Local counter"),
        (Filter::GlobalCounter, "Global counter"),
        (Filter::RandomNumber(number_range_full()), "Random number from [0, 2^64)"),
        (Filter::RandomNumber(number_range_from()), "Random number from [2, 2^64)"),
        (Filter::RandomNumber(number_range_between()), "Random number from [2, 10]"),
        (Filter::RandomUuid, "Random UUID"),
    ];
    for (filter, result) in cases {
        assert_eq!(filter.to_display_string(), result);
    }
}
