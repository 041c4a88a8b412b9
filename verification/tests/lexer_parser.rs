use rew::chars::Char;
use rew::filter::Filter;
use rew::lexer::{Lexer, Token};
use rew::padding::Padding;
use rew::parse::{Config, Error, ErrorKind, Parsed, Separator};
use rew::regexp::RegexHolder;
use rew::substr::CharIndexRange;
use rew::parser::{Item, ParsedItem, Parser};
use rew::repetition::Repetition;
use rew::substitution::Substitution;

fn raw(value: &str) -> Token {
    Token::Raw(value.chars().map(Char::Raw).collect())
}

fn esc(value: char, sequence: [char; 2]) -> Token {
    Token::Raw(vec![Char::Escaped(value, sequence)])
}

fn config() -> Config {
    Config { escape: '%', separator: Separator::Regex(RegexHolder::compile("\\s+").unwrap()) }
}

#[test]
fn lexer_errors() {
    assert_eq!(
        Lexer::new("%", '%').read_token(),
        Err(Error { kind: ErrorKind::UnterminatedEscapeSequence('%'), range: 0..1 })
    );
    assert_eq!(
        Lexer::new("%x", '%').read_token(),
        Err(Error { kind: ErrorKind::UnknownEscapeSequence(['%', 'x']), range: 0..2 })
    );
}

#[test]
fn lexer_single_tokens() {
    let cases = [
        ("a", 0..1, raw("a")),
        ("ab", 0..2, raw("ab")),
        ("{", 0..1, Token::ExprStart),
        ("}", 0..1, Token::ExprEnd),
        ("|", 0..1, Token::Pipe),
        ("%{", 0..2, esc('{', ['%', '{'])),
        ("%}", 0..2, esc('}', ['%', '}'])),
        ("%|", 0..2, esc('|', ['%', '|'])),
        ("%n", 0..2, esc('\n', ['%', 'n'])),
        ("%r", 0..2, esc('\r', ['%', 'r'])),
        ("%t", 0..2, esc('\t', ['%', 't'])),
        ("%0", 0..2, esc('\0', ['%', '0'])),
        ("%%", 0..2, esc('%', ['%', '%'])),
        ("%/", 0..2, esc('/', ['%', '/'])),
    ];
    for (input, range, value) in cases {
        assert_eq!(Lexer::new(input, '%').read_token(), Ok(Some(Parsed { value, range })), "{}", input);
    }
}

#[test]
fn lexer_multiple_tokens() {
    let expected = [
        (0..1, raw("a")),
        (1..2, Token::ExprStart),
        (2..3, Token::Pipe),
        (3..4, Token::ExprEnd),
        (4..6, raw("bc")),
        (6..7, Token::ExprStart),
        (7..9, raw("de")),
        (9..10, Token::Pipe),
        (10..12, raw("fg")),
        (12..13, Token::ExprEnd),
        (13..15, raw("hi")),
    ];
    let mut lexer = Lexer::new("a{|}bc{de|fg}hi", '%');
    for (range, value) in expected {
        assert_eq!(lexer.read_token(), Ok(Some(Parsed { value, range })));
    }
    assert_eq!(lexer.read_token(), Ok(None));
}

#[test]
fn lexer_multibyte_ranges() {
    let mut lexer = Lexer::new("á{b}", '%');
    assert_eq!(lexer.read_token(), Ok(Some(Parsed { value: raw("á"), range: 0..2 })));
    assert_eq!(lexer.read_token(), Ok(Some(Parsed { value: Token::ExprStart, range: 2..3 })));
}

#[test]
fn lexer_custom_escape() {
    assert_eq!(Lexer::new("#{", '#').read_token(), Ok(Some(Parsed { value: esc('{', ['#', '{']), range: 0..2 })));
}

fn parse(input: &str) -> rew::parse::Result<Vec<ParsedItem>> {
    Parser::new(input, &config()).parse_items()
}

#[test]
fn parser_errors() {
    let cases = [
        ("|", 0..1, ErrorKind::PipeOutsideExpr),
        ("}", 0..1, ErrorKind::UnmatchedExprEnd),
        ("{", 0..1, ErrorKind::UnmatchedExprStart),
        ("{|", 1..2, ErrorKind::ExpectedFilterOrExprEnd),
        ("{f", 0..1, ErrorKind::UnmatchedExprStart),
        ("{f{", 2..3, ErrorKind::ExprStartInsideExpr),
        ("{ff", 2..3, ErrorKind::ExpectedPipeOrExprEnd),
        ("{f|", 3..3, ErrorKind::ExpectedFilter),
        ("{f||", 3..4, ErrorKind::ExpectedFilter),
        ("{f|}", 3..4, ErrorKind::ExpectedFilter),
        ("{f|f", 0..1, ErrorKind::UnmatchedExprStart),
        ("{f|ff", 4..5, ErrorKind::ExpectedPipeOrExprEnd),
        ("{#2-1}", 2..5, ErrorKind::RangeStartOverEnd("2".into(), "1".into())),
    ];
    for (input, range, kind) in cases {
        assert_eq!(parse(input), Err(Error { kind, range }), "{}", input);
    }
}

#[test]
fn parser_items() {
    assert_eq!(parse(""), Ok(Vec::new()));
    assert_eq!(parse("a"), Ok(vec![Parsed { value: Item::Constant("a".into()), range: 0..1 }]));
    assert_eq!(parse("{}"), Ok(vec![Parsed { value: Item::Expression(Vec::new()), range: 0..2 }]));
    assert_eq!(
        parse("{f}"),
        Ok(vec![Parsed { value: Item::Expression(vec![Parsed { value: Filter::FileName, range: 1..2 }]), range: 0..3 }])
    );
    assert_eq!(
        parse("{e|t|#1-3}"),
        Ok(vec![Parsed {
            value: Item::Expression(vec![
                Parsed { value: Filter::Extension, range: 1..2 },
                Parsed { value: Filter::Trim, range: 3..4 },
                Parsed { value: Filter::Substring(CharIndexRange::new(0, Some(3))), range: 5..9 },
            ]),
            range: 0..10,
        }])
    );
}

#[test]
fn parser_complex_pattern() {
    assert_eq!(
        parse("image_{c|<3:0}.{e|v|r_e}2"),
        Ok(vec![
            Parsed { value: Item::Constant("image_".into()), range: 0..6 },
            Parsed {
                value: Item::Expression(vec![
                    Parsed { value: Filter::LocalCounter, range: 7..8 },
                    Parsed {
                        value: Filter::LeftPad(Padding::Repeated(Repetition { count: 3, value: "0".into() })),
                        range: 9..13,
                    },
                ]),
                range: 6..14,
            },
            Parsed { value: Item::Constant(".".into()), range: 14..15 },
            Parsed {
                value: Item::Expression(vec![
                    Parsed { value: Filter::Extension, range: 16..17 },
                    Parsed { value: Filter::ToLowercase, range: 18..19 },
                    Parsed {
                        value: Filter::ReplaceFirst(Substitution { target: "e".into(), replacement: String::new() }),
                        range: 20..23,
                    },
                ]),
                range: 15..24,
            },
            Parsed { value: Item::Constant("2".into()), range: 24..25 },
        ])
    );
}

#[test]
fn parser_items_cover_source() {
    let source = "a{f|v}%{b%}{}c";
    let items = parse(source).unwrap();
    assert_eq!(items.first().unwrap().range.start, 0);
    assert_eq!(items.last().unwrap().range.end, source.len());
    for pair in items.windows(2) {
        assert_eq!(pair[0].range.end, pair[1].range.start);
    }
}

#[test]
fn item_display() {
    let f = || Parsed { value: Filter::Trim, range: 0..0 };
    assert_eq!(Item::Constant("abc".into()).to_display_string(), "Constant 'abc'");
    assert_eq!(Item::Expression(Vec::new()).to_display_string(), "Empty expression");
    assert_eq!(Item::Expression(vec![f()]).to_display_string(), "Expression with a filter");
    assert_eq!(Item::Expression(vec![f(), f()]).to_display_string(), "Expression with 2 filters");
}

#[test]
fn filter_error_inside_token_is_shifted() {
    assert_eq!(
        parse("ab{f|#0}"),
        Err(Error { kind: ErrorKind::IndexZero, range: 6..7 })
    );
}

#[test]
fn lexer_tokens_tile_source() {
    for input in ["", "a", "ab{c|d}%{e}é|x", "{}}{||", "%%%n{f}%|"] {
        let mut lexer = Lexer::new(input, '%');
        let mut end = 0;
        let mut previous_raw = false;
        while let Some(token) = lexer.read_token().unwrap() {
            assert_eq!(token.range.start, end, "{}", input);
            let is_raw = matches!(token.value, Token::Raw(_));
            if !is_raw {
                assert_eq!(token.range.end, token.range.start + 1, "{}", input);
            }
            assert!(!(previous_raw && is_raw), "{}", input);
            previous_raw = is_raw;
            end = token.range.end;
        }
        assert_eq!(end, input.len(), "{}", input);
        assert_eq!(lexer.read_token(), Ok(None));
    }
}

#[test]
fn parser_items_shape() {
    for input in ["", "a", "a{f}b{}{v|^}", "%{x%}", "{f}{f}é"] {
        let items = parse(input).unwrap();
        assert_eq!(items.is_empty(), input.is_empty(), "{}", input);
        let mut end = 0;
        for (k, item) in items.iter().enumerate() {
            assert_eq!(item.range.start, end, "{}", input);
            end = item.range.end;
            if k + 1 < items.len() {
                let both = matches!(item.value, Item::Constant(_)) && matches!(items[k + 1].value, Item::Constant(_));
                assert!(!both, "{}", input);
            }
        }
        assert_eq!(end, input.len(), "{}", input);
    }
}
