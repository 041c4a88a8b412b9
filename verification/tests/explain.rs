use rew::explain::ExplainColor;
use rew::parse::{Config, Separator};
use rew::regexp::RegexHolder;
use rew::parser::Item;
use rew::pattern::Pattern;

fn config() -> Config {
    Config { escape: '%', separator: Separator::Regex(RegexHolder::compile("\\s+").unwrap()) }
}

fn parse(source: &str) -> Pattern {
    Pattern::parse(source, &config()).unwrap()
}

#[test]
fn explain_empty_pattern() {
    let pattern = Pattern { source: String::new(), items: Vec::new() };
    assert!(pattern.explain(false).is_empty());
    assert!(pattern.explain(true).is_empty());
}

#[test]
fn explain_filters_only() {
    let pattern = parse("_{f|t}");
    let parts = pattern.explain(false);
    assert_eq!(parts.len(), 2);
    assert_eq!(parts[0].range, 2..3);
    assert_eq!(parts[1].range, 4..5);
    assert!(parts.iter().all(|p| p.color == ExplainColor::Blue));
    match &pattern.items[1].value {
        Item::Expression(filters) => {
            assert_eq!(parts[0].text, filters[0].value.to_display_string());
            assert_eq!(parts[1].text, filters[1].value.to_display_string());
        }
        Item::Constant(_) => panic!("expected an expression"),
    }
}

#[test]
fn explain_all_parts() {
    let pattern = parse("_{f|t}");
    let parts = pattern.explain(true);
    let summary: Vec<(std::ops::Range<usize>, ExplainColor)> = parts.iter().map(|p| (p.range.clone(), p.color)).collect();
    assert_eq!(
        summary,
        vec![
            (0..1, ExplainColor::Green),
            (1..6, ExplainColor::Yellow),
            (2..3, ExplainColor::Blue),
            (4..5, ExplainColor::Blue),
        ]
    );
    assert_eq!(parts[0].text, "Constant '_'");
    assert_eq!(parts[1].text, "Expression with 2 filters");
}
