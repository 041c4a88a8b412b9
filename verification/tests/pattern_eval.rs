use rew::eval::{Context, ErrorKind as EvalErrorKind};
use rew::filter::Filter;
use rew::parse::{Config, Parsed, Separator};
use rew::parser::{Item, ParsedItem};
use rew::pattern::Pattern;
use rew::number::NumberRange;
use rew::regexp::RegexHolder;

fn config() -> Config {
    Config { escape: '%', separator: Separator::Regex(RegexHolder::compile("\\s+").unwrap()) }
}

fn parsed<T>(value: T) -> Parsed<T> {
    Parsed { value, range: 0..0 }
}

fn context(quotes: Option<char>) -> Context {
    Context {
        working_dir: String::from("current_dir"),
        local_counter: 1,
        global_counter: 2,
        regex_captures: RegexHolder::compile("(.*)").unwrap().captures("abc"),
        expression_quotes: quotes,
    }
}

fn complex_expr() -> Vec<ParsedItem> {
    vec![
        parsed(Item::Constant("1 ".into())),
        parsed(Item::Expression(vec![parsed(Filter::ParentDirectory)])),
        parsed(Item::Constant(" 2 ".into())),
        parsed(Item::Expression(vec![parsed(Filter::FileName), parsed(Filter::ToUppercase)])),
        parsed(Item::Constant(" 3".into())),
    ]
}

#[test]
fn pattern_eval_values() {
    let cases: Vec<(&str, Vec<ParsedItem>, Option<char>, &str)> = vec![
        ("", vec![parsed(Item::Constant("abc".into()))], None, "abc"),
        ("a/b", vec![parsed(Item::Expression(vec![]))], None, "a/b"),
        ("a/b", vec![parsed(Item::Expression(vec![parsed(Filter::FileName)]))], None, "b"),
        (
            "a/b",
            vec![parsed(Item::Expression(vec![parsed(Filter::FileName), parsed(Filter::ToUppercase)]))],
            None,
            "B",
        ),
        ("a/b", complex_expr(), None, "1 a 2 B 3"),
        ("a/b", complex_expr(), Some('\''), "1 'a' 2 'B' 3"),
    ];
    for (input, items, quotes, output) in cases {
        let pattern = Pattern::from(items);
        assert_eq!(pattern.eval(input, &context(quotes)), Ok(String::from(output)));
    }
}

#[test]
fn pattern_parse_and_eval() {
    let pattern = Pattern::parse("{b}_{c|<3:0}.{e|^}", &config()).unwrap();
    assert_eq!(pattern.source, "{b}_{c|<3:0}.{e|^}");
    assert_eq!(pattern.eval("dir/photo.jpg", &context(None)), Ok(String::from("photo_001.JPG")));
}

#[test]
fn pattern_escaped_constants() {
    let pattern = Pattern::parse("%{x%}%|%%", &config()).unwrap();
    assert_eq!(pattern.eval("ignored", &context(None)), Ok(String::from("{x}|%")));
}

#[test]
fn pattern_is_deterministic_without_random_filters() {
    let pattern = Pattern::parse("{f|t|#1-3}-{d}", &config()).unwrap();
    let first = pattern.eval("root/ file.txt ", &context(None));
    let second = pattern.eval("root/ file.txt ", &context(None));
    assert_eq!(first, Ok(String::from("fil-root")));
    assert_eq!(first, second);
}

#[test]
fn pattern_eval_failure_reports_filter() {
    let pattern = Pattern::parse("a{P}", &config()).unwrap();
    let error = pattern.eval("no/such/file", &context(None)).unwrap_err();
    assert_eq!(error.kind, EvalErrorKind::CanonicalizationFailed(rew::parse::AnyString::any()));
    assert_eq!(error.value, "no/such/file");
    assert_eq!(error.cause, &Filter::CanonicalPath);
    assert_eq!(error.range, &(2..3));
}

#[test]
fn pattern_uses() {
    let cases = [
        (Filter::FileName, false, false, false),
        (Filter::LocalCounter, true, false, false),
        (Filter::GlobalCounter, false, true, false),
        (Filter::RegexCapture(1), false, false, true),
    ];
    for (filter, local_counter, global_counter, regex_capture) in cases {
        let pattern = Pattern::from(vec![
            parsed(Item::Constant("a".into())),
            parsed(Item::Expression(vec![parsed(filter)])),
        ]);
        assert_eq!(pattern.uses_local_counter(), local_counter);
        assert_eq!(pattern.uses_global_counter(), global_counter);
        assert_eq!(pattern.uses_regex_capture(), regex_capture);
    }
}

#[test]
fn pattern_random_number_in_interval() {
    let pattern = Pattern::from(vec![parsed(Item::Expression(vec![parsed(Filter::RandomNumber(NumberRange::new(5, Some(7))))]))]);
    for _ in 0..20 {
        let value: u64 = pattern.eval("", &context(None)).unwrap().parse().unwrap();
        assert!((5..=7).contains(&value));
    }
}

#[test]
fn pattern_eval_reports_first_failing_filter() {
    let pattern = Pattern::parse("{f}{P|P}{P}", &config()).unwrap();
    let error = pattern.eval("no/such/file", &context(None)).unwrap_err();
    assert_eq!(error.cause, &Filter::CanonicalPath);
    assert_eq!(error.range, &(4..5));
    assert_eq!(error.value, "no/such/file");
}
