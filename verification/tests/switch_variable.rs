use rew::chars::Char;
use rew::eval::{Context, ErrorKind as EvalErrorKind};
use rew::parse::{AnyString, Error, ErrorKind};
use rew::reader::Reader;
use rew::regexp::RegexHolder;
use rew::switch::{Case, RegexSwitch};
use rew::variable::Variable;

fn case(matcher: &str, result: &str) -> Case {
    Case { matcher: RegexHolder::compile(matcher).unwrap(), result: result.to_string() }
}

fn switch(cases: Vec<Case>, default: &str) -> RegexSwitch {
    RegexSwitch { cases, default: default.to_string() }
}

#[test]
fn switch_parse_err() {
    let cases: Vec<(&str, usize, usize, ErrorKind)> = vec![
        ("", 0, 0, ErrorKind::ExpectedRegexSwitch),
        ("::", 0, 1, ErrorKind::RegexSwitchWithoutMatcher(Char::Raw(':'), 0)),
        (":[a-z:", 1, 5, ErrorKind::RegexInvalid(AnyString::any())),
        (":[a-z]:::", 7, 8, ErrorKind::RegexSwitchWithoutMatcher(Char::Raw(':'), 2)),
        (":[a-z]:Lo:[A-Z:", 10, 14, ErrorKind::RegexInvalid(AnyString::any())),
    ];
    for (input, start, end, kind) in cases {
        assert_eq!(RegexSwitch::parse(&mut Reader::from(input)), Err(Error { kind, range: start..end }));
    }
}

#[test]
fn switch_parse_ok() {
    let cases: Vec<(&str, Vec<(&str, &str)>, &str)> = vec![
        (":", vec![], ""),
        (":Mx", vec![], "Mx"),
        (":[a-z]:", vec![("[a-z]", "")], ""),
        (":[a-z]::", vec![("[a-z]", "")], ""),
        (":[a-z]:Lo", vec![("[a-z]", "Lo")], ""),
        (":[a-z]:Lo:", vec![("[a-z]", "Lo")], ""),
        (":[a-z]:Lo:Mx", vec![("[a-z]", "Lo")], "Mx"),
        (":[a-z]:Lo:[A-Z]:", vec![("[a-z]", "Lo"), ("[A-Z]", "")], ""),
        (":[a-z]:Lo:[A-Z]:Up", vec![("[a-z]", "Lo"), ("[A-Z]", "Up")], ""),
        (":[a-z]:Lo:[A-Z]:Up:", vec![("[a-z]", "Lo"), ("[A-Z]", "Up")], ""),
        (":[a-z]:Lo:[A-Z]:Up:Mx", vec![("[a-z]", "Lo"), ("[A-Z]", "Up")], "Mx"),
    ];
    for (input, expected, default) in cases {
        let expected = switch(expected.iter().map(|(m, r)| case(m, r)).collect(), default);
        assert_eq!(RegexSwitch::parse(&mut Reader::from(input)), Ok(expected));
    }
}

#[test]
fn switch_eval_defaults() {
    assert_eq!(switch(vec![], "").eval(""), "");
    assert_eq!(switch(vec![], "").eval("abc"), "");
    assert_eq!(switch(vec![], "default").eval(""), "default");
    assert_eq!(switch(vec![], "default").eval("abc"), "default");
}

#[test]
fn switch_eval_cases() {
    let s = switch(
        vec![
            case("\\d\\d", "contains consecutive digits"),
            case("\\d", "contains digit"),
            case("^[a-z]+$", "all lowercase"),
        ],
        "other",
    );
    assert_eq!(s.eval(""), "other");
    assert_eq!(s.eval("Ab"), "other");
    assert_eq!(s.eval("a12b"), "contains consecutive digits");
    assert_eq!(s.eval("a1b"), "contains digit");
    assert_eq!(s.eval("ab"), "all lowercase");
}

#[test]
fn switch_eval_captures() {
    let s = switch(
        vec![
            case("(\\d)(\\d)", "contains consecutive digits $1 and $2"),
            case("\\d", "contains digit $0"),
            case("^.*([A-Z]).*$", "first uppercase letter of '$0' is '$1'"),
        ],
        "$0, $1 are not capture groups",
    );
    assert_eq!(s.eval(""), "$0, $1 are not capture groups");
    assert_eq!(s.eval("world"), "$0, $1 are not capture groups");
    assert_eq!(s.eval("a34b"), "contains consecutive digits 3 and 4");
    assert_eq!(s.eval("a3b"), "contains digit 3");
    assert_eq!(s.eval("aBc"), "first uppercase letter of 'aBc' is 'B'");
}

#[test]
fn switch_display_constant() {
    assert_eq!(switch(vec![], "").to_display_string(), "constant output ''");
    assert_eq!(switch(vec![], "abc").to_display_string(), "constant output 'abc'");
}

#[test]
fn single_case() {
    assert_eq!(
        switch(vec![case("^[a-z]+$", "lower")], "").to_display_string(),
        "variable output:\n\n    if input matches '^[a-z]+$'\n        output is 'lower'\n    else\n        output is ''"
    );
}

#[test]
fn multiple_cases() {
    assert_eq!(
        switch(vec![case("^[a-z]+$", "lower"), case("^[A-Z]+$", "upper")], "mixed").to_display_string(),
        "variable output:\n\n    if input matches '^[a-z]+$'\n        output is 'lower'\n    else if input matches '^[A-Z]+$'\n        output is 'upper'\n    else\n        output is 'mixed'"
    );
}

#[test]
fn switch_error_message() {
    assert_eq!(
        ErrorKind::RegexSwitchWithoutMatcher(Char::Raw(':'), 2).to_message(),
        "Switch is missing value after ':' delimiter #3"
    );
}

fn parse(input: &str) -> Result<Variable, Error> {
    Variable::parse(&mut Reader::from(input))
}

#[test]
fn parse_path() {
    assert_eq!(parse("p"), Ok(Variable::Path));
}

#[test]
fn variable_parse_absolute_path() {
    assert_eq!(parse("a"), Ok(Variable::AbsolutePath));
}

#[test]
fn variable_parse_canonical_path() {
    assert_eq!(parse("A"), Ok(Variable::CanonicalPath));
}

#[test]
fn variable_parse_file_name() {
    assert_eq!(parse("f"), Ok(Variable::FileName));
}

#[test]
fn variable_parse_base_name() {
    assert_eq!(parse("b"), Ok(Variable::BaseName));
}

#[test]
fn variable_parse_extension() {
    assert_eq!(parse("e"), Ok(Variable::Extension));
}

#[test]
fn variable_parse_extension_with_dot() {
    assert_eq!(parse("E"), Ok(Variable::ExtensionWithDot));
}

#[test]
fn parse_parent() {
    assert_eq!(parse("d"), Ok(Variable::Parent));
}

#[test]
fn parse_parent_file_name() {
    assert_eq!(parse("D"), Ok(Variable::ParentFileName));
}

#[test]
fn parse_local_counter() {
    assert_eq!(parse("c"), Ok(Variable::LocalCounter));
}

#[test]
fn parse_global_counter() {
    assert_eq!(parse("C"), Ok(Variable::GlobalCounter));
}

#[test]
fn parse_regex_capture() {
    for n in 1..=10 {
        assert_eq!(parse(&n.to_string()), Ok(Variable::RegexCapture(n)));
    }
}

#[test]
fn parse_regex_capture_zero_error() {
    assert_eq!(parse("0"), Err(Error { kind: ErrorKind::RegexCaptureZero, range: 0..1 }));
}

#[test]
fn parse_uuid() {
    assert_eq!(parse("u"), Ok(Variable::Uuid));
}

#[test]
fn parse_ignore_remaining_chars_after_variable() {
    let mut reader = Reader::from("f_");
    Variable::parse(&mut reader).unwrap();
    assert_eq!(reader.position(), 1);
}

#[test]
fn parse_ignore_remaining_chars_after_capture_group() {
    let mut reader = Reader::from("123_");
    Variable::parse(&mut reader).unwrap();
    assert_eq!(reader.position(), 3);
}

#[test]
fn parse_empty_error() {
    assert_eq!(parse(""), Err(Error { kind: ErrorKind::ExpectedVariable, range: 0..0 }));
}

#[test]
fn parse_unknown_variable_error() {
    assert_eq!(parse("-_"), Err(Error { kind: ErrorKind::UnknownVariable(Char::Raw('-')), range: 0..1 }));
}

#[test]
fn variable_fmt() {
    let cases: Vec<(Variable, &str)> = vec![
        (Variable::Path, "Path"),
        (Variable::AbsolutePath, "Absolute path"),
        (Variable::CanonicalPath, "Canonical path"),
        (Variable::FileName, "File name"),
        (Variable::BaseName, "Base name"),
        (Variable::Extension, "Extension"),
        (Variable::ExtensionWithDot, "Extension with dot"),
        (Variable::Parent, "Parent"),
        (Variable::ParentFileName, "Parent file name"),
        (Variable::LocalCounter, "Local counter"),
        (Variable::GlobalCounter, "Global counter"),
        (Variable::RegexCapture(1), "Regex capture (1)"),
        (Variable::Uuid, "UUID"),
    ];
    for (variable, output) in cases {
        assert_eq!(variable.to_display_string(), output);
    }
}

const PATH: &str = "root/parent/file.ext";

fn make_context() -> Context {
    Context {
        working_dir: String::from("current_dir"),
        local_counter: 1,
        global_counter: 2,
        regex_captures: RegexHolder::compile("(.*)").unwrap().captures("abc"),
        expression_quotes: None,
    }
}

#[test]
fn eval_path() {
    assert_eq!(Variable::Path.eval(PATH, &make_context()), Ok(String::from("root/parent/file.ext")));
}

#[test]
fn variable_eval_absolute_path() {
    assert_eq!(
        Variable::AbsolutePath.eval(PATH, &make_context()),
        Ok(String::from("current_dir/root/parent/file.ext"))
    );
}

#[test]
fn eval_canonical_path_error() {
    assert!(matches!(
        Variable::CanonicalPath.eval(PATH, &make_context()),
        Err(EvalErrorKind::CanonicalizationFailed(_))
    ));
}

#[test]
fn variable_eval_file_name() {
    assert_eq!(Variable::FileName.eval(PATH, &make_context()), Ok(String::from("file.ext")));
}

#[test]
fn variable_eval_base_name() {
    assert_eq!(Variable::BaseName.eval(PATH, &make_context()), Ok(String::from("file")));
}

#[test]
fn variable_eval_extension() {
    assert_eq!(Variable::Extension.eval(PATH, &make_context()), Ok(String::from("ext")));
}

#[test]
fn eval_extension_missing() {
    assert_eq!(Variable::Extension.eval("root/parent/file", &make_context()), Ok(String::new()));
}

#[test]
fn variable_eval_extension_with_dot() {
    assert_eq!(Variable::ExtensionWithDot.eval(PATH, &make_context()), Ok(String::from(".ext")));
}

#[test]
fn eval_extension_with_dot_missing() {
    assert_eq!(Variable::ExtensionWithDot.eval("root/parent/file", &make_context()), Ok(String::new()));
}

#[test]
fn eval_parent() {
    assert_eq!(Variable::Parent.eval(PATH, &make_context()), Ok(String::from("root/parent")));
}

#[test]
fn eval_parent_missing() {
    assert_eq!(Variable::Parent.eval("file.ext", &make_context()), Ok(String::new()));
}

#[test]
fn eval_parent_file_name() {
    assert_eq!(Variable::ParentFileName.eval(PATH, &make_context()), Ok(String::from("parent")));
}

#[test]
fn eval_parent_file_name_missing() {
    assert_eq!(Variable::ParentFileName.eval("file.ext", &make_context()), Ok(String::new()));
}

#[test]
fn eval_local_counter() {
    assert_eq!(Variable::LocalCounter.eval(PATH, &make_context()), Ok(String::from("1")));
}

#[test]
fn eval_global_counter() {
    assert_eq!(Variable::GlobalCounter.eval(PATH, &make_context()), Ok(String::from("2")));
}

#[test]
fn eval_regex_capture() {
    assert_eq!(Variable::RegexCapture(1).eval(PATH, &make_context()), Ok(String::from("abc")));
}

#[test]
fn eval_regex_capture_overflow() {
    assert_eq!(Variable::RegexCapture(2).eval(PATH, &make_context()), Ok(String::new()));
}

#[test]
fn eval_uuid() {
    let uuid = Variable::Uuid.eval(PATH, &make_context()).unwrap();
    let shape = regex::Regex::new("^[0-9a-f]{8}-[0-9a-f]{4}-4[0-9a-f]{3}-[89ab][0-9a-f]{3}-[0-9a-f]{12}$").unwrap();
    assert!(shape.is_match(&uuid), "{} is UUID v4", uuid);
}

#[test]
fn eval_canonicalization_failed() {
    assert!(matches!(
        Variable::CanonicalPath.eval("no/such/file", &make_context()),
        Err(EvalErrorKind::CanonicalizationFailed(_))
    ));
}
