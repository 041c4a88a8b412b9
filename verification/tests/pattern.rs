use rew::chars::{Char, Chars};
use rew::counter::{Config as CounterConfig, GlobalGenerator, LocalGenerator};
use rew::eval::{Context, Error as EvalError, ErrorKind as EvalErrorKind};
use rew::filter::Filter;
use rew::lexer::{Lexer, Token};
use rew::matcher::{RegexMatcher, RegexRange};
use rew::padding::Padding;
use rew::parse::{AnyString, Config, Error, ErrorHint, ErrorKind, Parsed, Separator};
use rew::parser::Item;
use rew::pattern::Pattern;
use rew::reader::Reader;
use rew::regexp::RegexHolder;
use rew::repetition::Repetition;
use rew::substitution::{Empty, Substitution};

fn config() -> Config {
    Config { escape: '%', separator: Separator::Regex(RegexHolder::compile("\\s+").unwrap()) }
}

fn holder(pattern: &str) -> RegexHolder {
    RegexHolder::compile(pattern).unwrap()
}

fn make_eval_context() -> Context {
    Context {
        working_dir: String::from("current_dir"),
        local_counter: 1,
        global_counter: 2,
        regex_captures: holder("(.*)").captures("abc"),
        expression_quotes: None,
    }
}

fn parsed<T>(value: T) -> Parsed<T> {
    Parsed { value, range: 0..0 }
}

#[test]
fn from_char() {
    assert_eq!(Char::from('a'), Char::Raw('a'));
}

#[test]
fn char_as_char() {
    assert_eq!(Char::Raw('a').as_char(), 'a');
    assert_eq!(Char::Escaped('a', ['b', 'c']).as_char(), 'a');
}

#[test]
fn from() {
    let chars = [Char::Raw('a'), Char::Escaped('b', ['c', 'd'])];
    assert_eq!(Chars(&chars), Chars::from(&chars[..]));
}

#[test]
fn len_utf8() {
    let chars = [Char::Raw('a'), Char::Escaped('b', ['c', 'd'])];
    assert_eq!(Chars(&chars).len_utf8(), 3);
}

#[test]
fn to_string() {
    let chars = [Char::Raw('a'), Char::Escaped('b', ['c', 'd'])];
    assert_eq!(Chars(&chars).to_string(), "ab");
}

#[test]
fn regex_err() {
    assert_eq!(RegexHolder::try_from(String::from("[0-9")), Err(ErrorKind::RegexInvalid(AnyString::any())));
}

#[test]
fn regex_ok() {
    assert_eq!(RegexHolder::parse(&mut Reader::from("[0-9]")), Ok(holder("[0-9]")));
}

#[test]
fn regex_display() {
    assert_eq!(holder("[a-z]+").to_display_string(), "[a-z]+");
    let matcher = RegexMatcher { range: RegexRange::new(0, Some(2)), regex: holder("[0-9]+") };
    assert_eq!(matcher.to_display_string(), "#1-2 of '[0-9]+'");
}

#[test]
fn default() {
    let config = CounterConfig::default();
    assert_eq!(config.init, 1);
    assert_eq!(config.step, 1);
}

#[test]
fn counter_from_config() {
    assert_eq!(GlobalGenerator::new(12, 34), GlobalGenerator::from(&CounterConfig { init: 12, step: 34 }));
    assert_eq!(LocalGenerator::new(12, 34), LocalGenerator::from(&CounterConfig { init: 12, step: 34 }));
}

#[test]
fn mod_err() {
    assert_eq!(
        Pattern::parse("{", &config()),
        Err(Error { kind: ErrorKind::UnmatchedExprStart, range: 0..1 })
    );
    let pattern = Pattern::from(vec![parsed(Item::Expression(vec![Parsed { value: Filter::CanonicalPath, range: 1..2 }]))]);
    assert_eq!(
        pattern.eval("dir/file.ext", &make_eval_context()),
        Err(EvalError {
            kind: EvalErrorKind::CanonicalizationFailed(AnyString::any()),
            value: "dir/file.ext".into(),
            cause: &Filter::CanonicalPath,
            range: &(1..2usize),
        })
    );
}

#[test]
fn eval_range() {
    assert_eq!(
        EvalError {
            kind: EvalErrorKind::InputNotUtf8,
            cause: &Filter::AbsolutePath,
            value: String::from("abc"),
            range: &(1..2)
        }
        .range(),
        &(1..2)
    )
}

#[test]
fn eval_display() {
    assert_eq!(
        EvalError {
            kind: EvalErrorKind::InputNotUtf8,
            cause: &Filter::AbsolutePath,
            value: String::from("abc"),
            range: &(1..2)
        }
        .to_message(),
        "'Absolute path' evaluation failed for value 'abc': Input does not have UTF-8 encoding"
    );
}

#[test]
fn padding_display() {
    assert_eq!(Padding::Fixed("abc".into()).to_display_string(), "'abc'");
    assert_eq!(
        Padding::Repeated(Repetition { count: 5, value: "abc".into() }).to_display_string(),
        "5x 'abc'"
    );
}

#[test]
fn parse_range() {
    assert_eq!(Error { kind: ErrorKind::ExpectedNumber, range: 1..2 }.range(), &(1..2));
}

#[test]
fn parse_display() {
    assert_eq!(
        Error { kind: ErrorKind::ExpectedNumber, range: 1..2 }.to_message(),
        "Invalid pattern: Expected number"
    );
}

#[test]
fn multiple_escape_sequences() {
    assert_eq!(
        Lexer::new("a%{%|%}bc%{de%|fg%}hi%n%r%t%0%%", '%').read_token(),
        Ok(Some(Parsed {
            value: Token::Raw(vec![
                Char::Raw('a'),
                Char::Escaped('{', ['%', '{']),
                Char::Escaped('|', ['%', '|']),
                Char::Escaped('}', ['%', '}']),
                Char::Raw('b'),
                Char::Raw('c'),
                Char::Escaped('{', ['%', '{']),
                Char::Raw('d'),
                Char::Raw('e'),
                Char::Escaped('|', ['%', '|']),
                Char::Raw('f'),
                Char::Raw('g'),
                Char::Escaped('}', ['%', '}']),
                Char::Raw('h'),
                Char::Raw('i'),
                Char::Escaped('\n', ['%', 'n']),
                Char::Escaped('\r', ['%', 'r']),
                Char::Escaped('\t', ['%', 't']),
                Char::Escaped('\0', ['%', '0']),
                Char::Escaped('%', ['%', '%']),
            ]),
            range: 0..31,
        }))
    );
}

#[test]
fn repetition_display() {
    assert_eq!(Repetition { count: 5, value: "abc".into() }.to_display_string(), "5x 'abc'");
}

#[test]
fn replace_display() {
    assert_eq!(Substitution { target: Empty, replacement: "abc".into() }.to_display_string(), "empty with 'abc'");
    assert_eq!(
        Substitution { target: String::from("abc"), replacement: String::from("def") }.to_display_string(),
        "'abc' with 'def'"
    );
    assert_eq!(
        Substitution { target: holder("([a-z]+)"), replacement: String::from("_$1_") }.to_display_string(),
        "'([a-z]+)' with '_$1_'"
    );
}

#[test]
fn mod_ok() {
    assert_eq!(
        Pattern::parse("_%{{f|v}%}_", &config()),
        Ok(Pattern {
            source: "_%{{f|v}%}_".into(),
            items: vec![
                Parsed { value: Item::Constant("_{".into()), range: 0..3 },
                Parsed {
                    value: Item::Expression(vec![
                        Parsed { value: Filter::FileName, range: 4..5 },
                        Parsed { value: Filter::ToLowercase, range: 6..7 },
                    ]),
                    range: 3..8,
                },
                Parsed { value: Item::Constant("}_".into()), range: 8..11 },
            ],
        })
    );
}

#[test]
fn error_kind_hint() {
    use_hints(vec![
        (ErrorKind::ExpectedFieldSeparator, Some(ErrorHint::FilterUsage)),
        (ErrorKind::ExpectedFilter, Some(ErrorHint::PatternSyntax)),
        (ErrorKind::ExpectedNumber, Some(ErrorHint::FilterUsage)),
        (ErrorKind::ExpectedFilterOrExprEnd, Some(ErrorHint::PatternSyntax)),
        (ErrorKind::ExpectedPipeOrExprEnd, Some(ErrorHint::PatternSyntax)),
        (ErrorKind::ExpectedRange, Some(ErrorHint::FilterUsage)),
        (ErrorKind::ExpectedRangeDelimiter(None), Some(ErrorHint::FilterUsage)),
        (ErrorKind::ExpectedRangeLength, Some(ErrorHint::FilterUsage)),
        (ErrorKind::ExpectedRegex, Some(ErrorHint::FilterUsage)),
        (ErrorKind::ExpectedRepetition, Some(ErrorHint::FilterUsage)),
        (ErrorKind::ExpectedSubstitution, Some(ErrorHint::FilterUsage)),
        (ErrorKind::ExpectedRegexSwitch, Some(ErrorHint::FilterUsage)),
        (ErrorKind::ExprStartInsideExpr, Some(ErrorHint::PatternSyntax)),
        (ErrorKind::IndexZero, Some(ErrorHint::FilterUsage)),
        (ErrorKind::IntegerOverflow("255".into()), None),
        (ErrorKind::PaddingPrefixInvalid('<', None), Some(ErrorHint::FilterUsage)),
        (ErrorKind::PipeOutsideExpr, Some(ErrorHint::PatternSyntax)),
        (ErrorKind::RangeInvalid("abc".into()), Some(ErrorHint::FilterUsage)),
        (ErrorKind::RangeStartOverEnd("2".into(), "1".into()), Some(ErrorHint::FilterUsage)),
        (ErrorKind::RegexInvalid(AnyString("abc".into())), Some(ErrorHint::PatternSyntax)),
        (ErrorKind::RepetitionWithoutDelimiter, Some(ErrorHint::FilterUsage)),
        (ErrorKind::SubstitutionWithoutTarget(Char::Raw('_')), Some(ErrorHint::FilterUsage)),
        (ErrorKind::RegexSwitchWithoutMatcher(Char::Raw('_'), 0), Some(ErrorHint::FilterUsage)),
        (ErrorKind::UnknownEscapeSequence(['%', 'x']), Some(ErrorHint::PatternSyntax)),
        (ErrorKind::UnknownFilter(Char::Raw('x')), Some(ErrorHint::FilterUsage)),
        (ErrorKind::UnmatchedExprEnd, Some(ErrorHint::PatternSyntax)),
        (ErrorKind::UnmatchedExprStart, Some(ErrorHint::PatternSyntax)),
        (ErrorKind::UnterminatedEscapeSequence('%'), Some(ErrorHint::PatternSyntax)),
    ]);
}

fn use_hints(cases: Vec<(ErrorKind, Option<ErrorHint>)>) {
    for (kind, hint) in cases {
        assert_eq!(kind.hint(), hint, "{:?}", kind);
    }
}

#[test]
fn error_kind_display() {
    let cases: Vec<(ErrorKind, &str)> = vec![
        (ErrorKind::ExpectedFieldSeparator, "Expected field separator"),
        (ErrorKind::ExpectedFilter, "Expected filter after '|'"),
        (ErrorKind::ExpectedNumber, "Expected number"),
        (ErrorKind::ExpectedFilterOrExprEnd, "Expected filter or closing '}'"),
        (ErrorKind::ExpectedPipeOrExprEnd, "Expected '|' or closing '}'"),
        (ErrorKind::ExpectedRange, "Expected range 'A-B', 'A-', 'A' or 'A+B'"),
        (ErrorKind::ExpectedRangeDelimiter(None), "Expected range delimiter '-'"),
        (ErrorKind::ExpectedRangeDelimiter(Some(Char::Raw('x'))), "Expected range delimiter '-' but got 'x'"),
        (ErrorKind::ExpectedRangeLength, "Expected range length after '+'"),
        (ErrorKind::ExpectedRegex, "Expected regular expression"),
        (ErrorKind::ExpectedRepetition, "Expected repetition 'N:V' or 'N'"),
        (ErrorKind::ExpectedSubstitution, "Expected substitution ':A:B' or ':A'"),
        (ErrorKind::ExpectedRegexSwitch, "Expected switch ':X1:Y1:...:Xn:Yn:D'"),
        (ErrorKind::ExprStartInsideExpr, "Unescaped '{' inside expression"),
        (ErrorKind::IndexZero, "Indices start from 1, not 0"),
        (ErrorKind::IntegerOverflow("255".into()), "Cannot parse value greater than 255"),
        (ErrorKind::PaddingPrefixInvalid('<', None), "Expected '<' prefix or number"),
        (ErrorKind::PaddingPrefixInvalid('<', Some(Char::Raw('x'))), "Expected '<' prefix or number but got 'x'"),
        (ErrorKind::PipeOutsideExpr, "Unescaped '|' outside expression"),
        (ErrorKind::RangeInvalid("abc".into()), "Invalid range 'abc'"),
        (ErrorKind::RangeStartOverEnd("2".into(), "1".into()), "Range start 2 is greater than end 1"),
        (ErrorKind::RegexInvalid(AnyString("abc".into())), "Invalid regular expression 'abc'"),
        (ErrorKind::RepetitionWithoutDelimiter, "Repetition is missing delimiter after number"),
        (ErrorKind::SubstitutionWithoutTarget(Char::Raw('_')), "Substitution is missing value after '_' delimiter"),
        (ErrorKind::RegexSwitchWithoutMatcher(Char::Raw('_'), 0), "Switch is missing value after '_' delimiter #1"),
        (ErrorKind::UnknownEscapeSequence(['%', 'x']), "Unknown escape sequence '%x'"),
        (ErrorKind::UnknownFilter(Char::Raw('x')), "Unknown filter 'x'"),
        (ErrorKind::UnmatchedExprEnd, "No matching '{' before expression end"),
        (ErrorKind::UnmatchedExprStart, "No matching '}' after expression start"),
        (ErrorKind::UnterminatedEscapeSequence('%'), "Unterminated escape sequence '%'"),
    ];
    for (kind, message) in cases {
        assert_eq!(kind.to_message(), message);
    }
}
