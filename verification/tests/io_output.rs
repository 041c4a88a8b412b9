use rew::io::{parse_single_byte_char, trim_byte, trim_newline, trim_null, Finish, LineReader, Separator};
use rew::output::{highlight_range, Color, Highlight, Mode, Piece, Values};

#[test]
fn separator_bytes() {
    assert_eq!(Separator::Newline.as_byte(), b'\n');
    assert_eq!(Separator::Null.as_byte(), b'\0');
}

#[test]
fn trims() {
    assert_eq!(trim_newline(b"abc\n"), b"abc");
    assert_eq!(trim_newline(b"abc\r\n"), b"abc");
    assert_eq!(trim_newline(b"abc\r"), b"abc\r");
    assert_eq!(trim_newline(b"abc"), b"abc");
    assert_eq!(trim_newline(b""), b"");
    assert_eq!(trim_null(b"abc\0"), b"abc");
    assert_eq!(trim_null(b"abc\0\0"), b"abc\0");
    assert_eq!(Separator::Newline.trim_fn(b"a\n"), b"a");
    assert_eq!(Separator::Null.trim_fn(b"a\0"), b"a");
}

#[test]
fn single_byte_chars() {
    assert_eq!(parse_single_byte_char("a"), Ok(b'a'));
    assert_eq!(parse_single_byte_char("\t"), Ok(b'\t'));
    assert_eq!(parse_single_byte_char(""), Err("value must be a single character"));
    assert_eq!(parse_single_byte_char("ab"), Err("value must be a single character"));
    assert_eq!(parse_single_byte_char("á"), Err("multi-byte characters are not supported"));
}

fn read_all(data: &[u8], separator: Separator, size: usize) -> Result<Vec<Vec<u8>>, String> {
    let mut reader = LineReader::new(separator, size);
    let mut rest = data;
    let mut lines = Vec::new();
    loop {
        if let Some(line) = reader.read_line() {
            lines.push(line);
            continue;
        }
        let count = reader.free_space().min(rest.len()).min(3);
        if count > 0 {
            reader.fill(&rest[..count]);
            rest = &rest[count..];
            continue;
        }
        match reader.finish() {
            Finish::Done => return Ok(lines),
            Finish::Line(line) => lines.push(line),
            Finish::TooLong(message) => return Err(message),
        }
    }
}

#[test]
fn line_reader_lines() {
    assert_eq!(
        read_all(b"ab\ncd\r\n\nef", Separator::Newline, 8),
        Ok(vec![b"ab".to_vec(), b"cd".to_vec(), b"".to_vec(), b"ef".to_vec()])
    );
    assert_eq!(read_all(b"a\0b\0", Separator::Null, 4), Ok(vec![b"a".to_vec(), b"b".to_vec()]));
    assert_eq!(read_all(b"", Separator::Newline, 4), Ok(vec![]));
}

#[test]
fn line_reader_too_long() {
    assert_eq!(
        read_all(b"abcdef\n", Separator::Newline, 4),
        Err(String::from("could not fetch line longer than '4' bytes"))
    );
}

fn text(value: &str) -> Piece {
    Piece::Text(String::from(value))
}

fn write_two(mode: Mode, terminator: &str) -> Vec<Piece> {
    let mut values = Values::new(mode, terminator);
    let mut pieces = values.write("a", "b");
    pieces.extend(values.write("c", "d"));
    pieces
}

#[test]
fn values_write() {
    assert_eq!(write_two(Mode::Standard, "\n"), vec![text("b\n"), text("d\n")]);
    assert_eq!(write_two(Mode::Standard, ""), vec![text("b"), Piece::Flush, text("d"), Piece::Flush]);
    assert_eq!(write_two(Mode::Standard, "\0"), vec![text("b\0"), Piece::Flush, text("d\0"), Piece::Flush]);
    assert_eq!(write_two(Mode::StandardNoEnd, "\n"), vec![text("b"), text("\n"), text("d")]);
    assert_eq!(write_two(Mode::StandardNoEnd, "\0"), vec![text("b"), text("\0"), Piece::Flush, text("d")]);
    assert_eq!(write_two(Mode::Diff, "\n"), vec![text("<a\n>b\n"), text("<c\n>d\n")]);
    assert_eq!(write_two(Mode::Diff, ""), vec![text("<a>b"), Piece::Flush, text("<c>d"), Piece::Flush]);
    assert_eq!(
        write_two(Mode::Pretty, "x"),
        vec![
            Piece::SetColor(Color::Blue),
            text("a"),
            Piece::ResetColor,
            text(" -> "),
            Piece::SetColor(Color::Green),
            text("b\n"),
            Piece::SetColor(Color::Blue),
            text("c"),
            Piece::ResetColor,
            text(" -> "),
            Piece::SetColor(Color::Green),
            text("d\n"),
        ]
    );
    assert_eq!(
        write_two(Mode::JsonLines, "x"),
        vec![text("{\"in\":\"a\",\"out\":\"b\"}\n"), text("{\"in\":\"c\",\"out\":\"d\"}\n")]
    );
}

#[test]
fn highlight_range_parts() {
    assert_eq!(
        highlight_range("abcde", 1, 4),
        Some(Highlight { before: "a".into(), marked: "bcd".into(), after: "e".into(), spaces: 1, markers: 3 })
    );
    assert_eq!(
        highlight_range("abcd", 4, 4),
        Some(Highlight { before: "abcd".into(), marked: "".into(), after: "".into(), spaces: 4, markers: 1 })
    );
    assert_eq!(
        highlight_range("ábc", 2, 3),
        Some(Highlight { before: "á".into(), marked: "b".into(), after: "c".into(), spaces: 1, markers: 1 })
    );
    assert_eq!(highlight_range("ábc", 1, 3), None);
    assert_eq!(highlight_range("abc", 2, 1), None);
    assert_eq!(highlight_range("abc", 1, 4), None);
}

#[test]
fn line_reader_custom_byte() {
    assert_eq!(Separator::Byte(b',').as_byte(), b',');
    assert_eq!(trim_byte(b"ab,", b','), b"ab");
    assert_eq!(trim_byte(b"ab,,", b','), b"ab,");
    assert_eq!(trim_byte(b"ab\r\n", b'\n'), b"ab\r");
    assert_eq!(Separator::Byte(b';').trim_fn(b"a;"), b"a");
    assert_eq!(
        read_all(b"a,bc,,d\n", Separator::Byte(b','), 4),
        Ok(vec![b"a".to_vec(), b"bc".to_vec(), b"".to_vec(), b"d\n".to_vec()])
    );
}
