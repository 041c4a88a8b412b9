use rew::output::Mode;
use rew::run::{after_failure, expression_quotes, output_mode, output_terminator, AfterFailure, EXIT_CODE_EVAL_ERROR};
use rew::args::{BufMode, GlobalArgs, DEFAULT_BUF_SIZE};
use rew::chars::{AsChar, Char};
use rew::parse::{Error, ErrorKind, GetErrorRange};

#[test]
fn buf_mode_for_output() {
    assert_eq!(BufMode::for_output(true), BufMode::Line);
    assert_eq!(BufMode::for_output(false), BufMode::Full);
    assert!(BufMode::Line.is_line());
    assert!(BufMode::Full.is_full());
    assert!(!BufMode::Line.is_full());
}

#[test]
fn buf_mode_display() {
    assert_eq!(BufMode::Line.to_display_string(), "line");
    assert_eq!(BufMode::Full.to_display_string(), "full");
}

#[test]
fn global_args_defaults() {
    let args = GlobalArgs::defaults(false);
    assert!(!args.null);
    assert_eq!(args.buf_mode, BufMode::Full);
    assert_eq!(args.buf_size, DEFAULT_BUF_SIZE);
    assert_eq!(DEFAULT_BUF_SIZE, 32768);
}

#[test]
fn as_char_of_char_and_pattern_char() {
    assert_eq!(AsChar::as_char(&'á'), 'á');
    assert_eq!(AsChar::len_utf8(&'á'), 2);
    let escaped = Char::Escaped('|', ['%', '|']);
    assert_eq!(AsChar::as_char(&escaped), '|');
    assert_eq!(AsChar::len_utf8(&escaped), 2);
    assert_eq!(AsChar::len_utf8(&Char::Raw('a')), 1);
}

#[test]
fn error_range_of_parse_error() {
    let error = Error { kind: ErrorKind::ExpectedNumber, range: 1..2 };
    assert_eq!(error.error_range(), &(1..2));
}

#[test]
fn run_options() {
    assert_eq!(output_mode(true, true, false, false), Mode::Pretty);
    assert_eq!(output_mode(false, true, true, false), Mode::Diff);
    assert_eq!(output_mode(false, false, true, true), Mode::JsonLines);
    assert_eq!(output_mode(false, false, false, true), Mode::StandardNoEnd);
    assert_eq!(output_mode(false, false, false, false), Mode::Standard);
    assert_eq!(output_terminator(Some("--"), true, true), "--");
    assert_eq!(output_terminator(None, true, true), "");
    assert_eq!(output_terminator(None, false, true), "\0");
    assert_eq!(output_terminator(None, false, false), "\n");
    assert_eq!(expression_quotes(0), None);
    assert_eq!(expression_quotes(1), Some('\''));
    assert_eq!(expression_quotes(5), Some('"'));
    assert_eq!(after_failure(true), AfterFailure::Continue(EXIT_CODE_EVAL_ERROR));
    assert_eq!(after_failure(false), AfterFailure::Stop(4));
}
