use rew::filter::string::{replace_all, replace_first};
use rew::filter::substr::{get_backward, get_forward};
use rew::reader::Reader;
use rew::split::{rsplit_string, split_string};
use rew::substr::CharIndexRange;

#[test]
fn replacing_by_itself_changes_nothing() {
    assert_eq!(replace_all(String::from("abcabc"), "bc", "bc"), Ok(String::from("abcabc")));
    assert_eq!(replace_first(String::from("abcabc"), "bc", "bc"), Ok(String::from("abcabc")));
    assert_eq!(replace_all(String::from("abc"), "", ""), Ok(String::from("abc")));
}

#[test]
fn replacing_absent_target_changes_nothing() {
    assert_eq!(replace_all(String::from("abc"), "x", "y"), Ok(String::from("abc")));
    assert_eq!(replace_first(String::from("abc"), "x", "y"), Ok(String::from("abc")));
}

#[test]
fn split_parts_join_back() {
    for (value, separator) in [("a,b,,c", ","), ("aaa", "aa"), ("", ","), ("abc", "")] {
        let parts = split_string(value, separator);
        assert_eq!(parts.join(separator), value);
        let mut backward = rsplit_string(value, separator);
        if !separator.is_empty() {
            backward.reverse();
            assert_eq!(backward.join(separator), value);
        }
    }
}

#[test]
fn backward_substring_is_forward_substring_of_reversed() {
    let value = "ábčdef";
    let reversed: String = value.chars().rev().collect();
    for (start, length) in [(0, None), (1, Some(2)), (2, None), (4, Some(9)), (7, Some(1))] {
        let backward = get_backward(String::from(value), start, length).unwrap();
        let forward = get_forward(reversed.clone(), start, length).unwrap();
        assert_eq!(backward, forward.chars().rev().collect::<String>());
    }
}

#[test]
fn parsed_ranges_are_ordered() {
    for input in ["1", "1-3", "2+0", "5-", "3+7"] {
        let range = CharIndexRange::parse(&mut Reader::from(input)).unwrap();
        if let Some(end) = range.end() {
            assert!(range.start() <= end);
        }
    }
}

#[test]
fn plain_text_pattern_is_one_constant() {
    use_plain("abc/def.ext");
    use_plain("ábč");
    let pattern = rew::pattern::Pattern::parse("", &rew::parse::Config { escape: '%', separator: rew::parse::Separator::Regex(rew::regexp::RegexHolder::compile("\\s+").unwrap()) }).unwrap();
    assert!(pattern.items.is_empty());
}

fn use_plain(text: &str) {
    let pattern = rew::pattern::Pattern::parse(text, &rew::parse::Config { escape: '%', separator: rew::parse::Separator::Regex(rew::regexp::RegexHolder::compile("\\s+").unwrap()) }).unwrap();
    assert_eq!(pattern.items.len(), 1);
    assert_eq!(pattern.items[0].range, 0..text.len());
    assert_eq!(pattern.items[0].value, rew::parser::Item::Constant(text.to_string()));
}

#[test]
fn plain_text_pattern_gives_its_text() {
    let context = rew::eval::Context {
        working_dir: String::from("dir"),
        global_counter: 1,
        local_counter: 1,
        regex_captures: None,
        expression_quotes: Some('\''),
    };
    let pattern = rew::pattern::Pattern::parse("a/b c", &rew::parse::Config { escape: '%', separator: rew::parse::Separator::Regex(rew::regexp::RegexHolder::compile("\\s+").unwrap()) }).unwrap();
    for input in ["", "x", "long/input.txt"] {
        assert_eq!(pattern.eval(input, &context).unwrap(), "a/b c");
    }
}

#[test]
fn line_is_read_back() {
    let mut reader = rew::io::LineReader::new(rew::io::Separator::Newline, 64);
    reader.fill(b"first\r\nsecond\nrest");
    assert_eq!(reader.read_line(), Some(b"first".to_vec()));
    assert_eq!(reader.read_line(), Some(b"second".to_vec()));
    assert_eq!(reader.read_line(), None);
    let mut nul = rew::io::LineReader::new(rew::io::Separator::Null, 16);
    nul.fill(b"a\nb\0c");
    assert_eq!(nul.read_line(), Some(b"a\nb".to_vec()));
}

#[test]
fn lines_read_in_pieces_are_lines_of_whole_input() {
    let mut reader = rew::io::LineReader::new(rew::io::Separator::Newline, 16);
    reader.fill(b"ab\ncd");
    assert_eq!(reader.read_line(), Some(b"ab".to_vec()));
    assert_eq!(reader.read_line(), None);
    reader.fill(b"e\nf");
    assert_eq!(reader.read_line(), Some(b"cde".to_vec()));
    assert_eq!(reader.read_line(), None);
    assert!(matches!(reader.finish(), rew::io::Finish::Line(line) if line == b"f".to_vec()));
}

#[test]
fn canonical_path_is_absolute_without_dots() {
    for value in [".", "/.", "/tmp/..", "./"] {
        let path = rew::filter::path::canonicalize(String::from(value), "/").unwrap();
        assert!(path.starts_with('/'));
        assert!(path.split('/').all(|part| part != "." && part != ".."));
    }
    assert_eq!(rew::filter::path::canonicalize(String::from("."), "/"), Ok(String::from("/")));
}

#[test]
fn random_number_stays_within_shown_range() {
    let range = rew::number::NumberRange::new(5, Some(7));
    assert_eq!(range.to_display_string(), "[5, 6]");
    for _ in 0..200 {
        let value = range.random();
        assert!((5..=6).contains(&value));
    }
    assert_eq!(rew::number::NumberRange::new(3, Some(3)).random(), 3);
    assert_eq!(rew::number::NumberRange::new(3, Some(4)).random(), 3);
}

#[test]
fn normalizing_twice_changes_nothing() {
    let values = ["", ".", "./", "..", "a/./b/", "/a/../..", "../a/../../b", "//x//y/.", "./.a/b/..", "/", "a/b/../../.."];
    for value in values {
        let once = rew::filter::path::normalize(value).unwrap();
        assert!(!once.is_empty());
        assert_eq!(rew::filter::path::normalize(&once), Ok(once.clone()));
        assert!(!once.ends_with('/') || once == "/");
        if once.starts_with('/') {
            assert!(once.split('/').all(|part| part != ".."));
        }
        if once != "." {
            assert!(once.split('/').all(|part| part != "."));
        }
    }
    assert_eq!(rew::filter::path::normalize("/a/../.."), Ok(String::from("/")));
    assert_eq!(rew::filter::path::normalize("../a/../../b"), Ok(String::from("../../b")));
}
