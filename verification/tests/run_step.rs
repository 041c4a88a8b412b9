use rew::counter::{GlobalGenerator, LocalGenerator};
use rew::regexp::RegexHolder;
use rew::io::Separator;
use rew::run::{colors_enabled, input_separator, next_context, parse_color, value_captures, ColorChoice};

fn groups(values: &[&str]) -> Option<Vec<Option<String>>> {
    Some(values.iter().map(|v| Some(v.to_string())).collect())
}

#[test]
fn value_captures_by_source() {
    let digits = RegexHolder::compile("([0-9]+)").unwrap();
    let letters = RegexHolder::compile("([a-z]+)").unwrap();
    assert_eq!(value_captures("d1/x_22", Some(&digits), None), groups(&["1", "1"]));
    assert_eq!(value_captures("d1/x_22", None, Some(&digits)), groups(&["22", "22"]));
    assert_eq!(value_captures("d1/x_22", Some(&letters), Some(&digits)), groups(&["d", "d"]));
    assert_eq!(value_captures("d1/", None, Some(&letters)), groups(&["d", "d"]));
    assert_eq!(value_captures("/", None, Some(&letters)), None);
    assert_eq!(value_captures("d1/x_22", None, None), None);
    assert_eq!(value_captures("abc", Some(&digits), None), None);
}

#[test]
fn next_context_advances_used_counters() {
    let regex = RegexHolder::compile("([0-9]+)").unwrap();
    let mut global = GlobalGenerator::new(1, 2);
    let mut local = LocalGenerator::new(10, 5);
    let first = next_context("a/x1", true, true, true, &mut global, &mut local, Some(&regex), None, "/work", Some('\''))
        .unwrap();
    assert_eq!(first.global_counter, 1);
    assert_eq!(first.local_counter, 10);
    assert_eq!(first.regex_captures, groups(&["1", "1"]));
    assert_eq!(first.working_dir, "/work");
    assert_eq!(first.expression_quotes, Some('\''));
    let second = next_context("a/y", true, true, true, &mut global, &mut local, Some(&regex), None, "/work", None).unwrap();
    assert_eq!(second.global_counter, 3);
    assert_eq!(second.local_counter, 15);
    assert_eq!(second.regex_captures, None);
    let third = next_context("b/z", true, true, false, &mut global, &mut local, Some(&regex), None, "/work", None).unwrap();
    assert_eq!(third.global_counter, 5);
    assert_eq!(third.local_counter, 10);
    assert_eq!(third.regex_captures, None);
    assert_eq!(global.value, 7);
}

#[test]
fn next_context_leaves_unused_counters() {
    let mut global = GlobalGenerator::new(4, 1);
    let mut local = LocalGenerator::new(0, 1);
    let context = next_context("a/b", false, false, false, &mut global, &mut local, None, None, "/", None).unwrap();
    assert_eq!(context.global_counter, 0);
    assert_eq!(context.local_counter, 0);
    assert_eq!(global, GlobalGenerator::new(4, 1));
    assert_eq!(local, LocalGenerator::new(0, 1));
}

#[test]
fn next_context_refuses_overflow() {
    let mut global = GlobalGenerator::new(u32::MAX, 1);
    let mut local = LocalGenerator::new(u32::MAX, 1);
    assert!(next_context("a/b", true, false, false, &mut global, &mut local, None, None, "/", None).is_none());
    assert_eq!(global, GlobalGenerator::new(u32::MAX, 1));
    let context = next_context("a/b", false, true, false, &mut global, &mut local, None, None, "/", None).unwrap();
    assert_eq!(context.local_counter, u32::MAX);
    assert!(next_context("a/c", false, true, false, &mut global, &mut local, None, None, "/", None).is_none());
    let other = next_context("b/c", false, true, false, &mut global, &mut local, None, None, "/", None).unwrap();
    assert_eq!(other.local_counter, u32::MAX);
}

#[test]
fn input_separator_by_options() {
    assert_eq!(input_separator(Some(b','), false), Separator::Byte(b','));
    assert_eq!(input_separator(Some(b','), true), Separator::Byte(b','));
    assert_eq!(input_separator(None, true), Separator::Null);
    assert_eq!(input_separator(None, false), Separator::Newline);
}

#[test]
fn color_choices() {
    assert_eq!(parse_color("auto"), Some(ColorChoice::Auto));
    assert_eq!(parse_color("always"), Some(ColorChoice::Always));
    assert_eq!(parse_color("ansi"), Some(ColorChoice::AlwaysAnsi));
    assert_eq!(parse_color("never"), Some(ColorChoice::Never));
    assert_eq!(parse_color("Always"), None);
    assert!(colors_enabled(Some(ColorChoice::Always), false));
    assert!(colors_enabled(Some(ColorChoice::AlwaysAnsi), false));
    assert!(!colors_enabled(Some(ColorChoice::Never), true));
    assert!(colors_enabled(Some(ColorChoice::Auto), true));
    assert!(!colors_enabled(None, false));
}
