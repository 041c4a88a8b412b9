use vstd::prelude::*;
use crate::chars::{Char, EscapeSequence};
use crate::escape::{escaped_char, escaped_text};
use crate::regexp::RegexHolder;
use crate::text::{string_from_str, text_eq};

verus! {

/// A message taken from an outside library; any two of them compare equal,
/// since their wording is not under this library's control.
#[derive(Debug, Clone)]
pub struct AnyString(pub String);

impl PartialEq for AnyString {
    fn eq(&self, other: &Self) -> (r: bool) {
        true
    }
}

impl AnyString {
    /// A message with no particular wording.
    pub fn any() -> (s: AnyString)
        ensures
            s.0@ == Seq::<char>::empty(),
    {
        AnyString(String::new())
    }
}

impl vstd::std_specs::cmp::PartialEqSpecImpl for AnyString {
    open spec fn obeys_eq_spec() -> bool {
        true
    }

    open spec fn eq_spec(&self, other: &Self) -> bool {
        true
    }
}

/// Settings of the pattern language.
pub struct Config {
    /// The character that starts an escape sequence.
    pub escape: char,
    /// What splits a value into columns when a column filter names no separator.
    pub separator: Separator,
}

/// The mathematical content of a [`Config`].
pub struct ConfigView {
    pub escape: char,
    pub separator: SeparatorView,
}

impl View for Config {
    type V = ConfigView;

    open spec fn view(&self) -> ConfigView {
        ConfigView { escape: self.escape, separator: self.separator@ }
    }
}

/// What splits a value into fields: a plain text or a regular expression.
#[derive(Debug)]
pub enum Separator {
    String(String),
    Regex(RegexHolder),
}

/// The mathematical content of a [`Separator`]: the text, or the regex pattern.
pub enum SeparatorView {
    Text(Seq<char>),
    Pattern(Seq<char>),
}

impl View for Separator {
    type V = SeparatorView;

    open spec fn view(&self) -> SeparatorView {
        match self {
            Separator::String(text) => SeparatorView::Text(text@),
            Separator::Regex(regex) => SeparatorView::Pattern(regex@),
        }
    }
}

impl PartialEq for Separator {
    fn eq(&self, other: &Self) -> (r: bool) {
        match (self, other) {
            (Separator::String(a), Separator::String(b)) => text_eq(a.as_str(), b.as_str()),
            (Separator::Regex(a), Separator::Regex(b)) => text_eq(a.as_str(), b.as_str()),
            _ => false,
        }
    }
}

impl vstd::std_specs::cmp::PartialEqSpecImpl for Separator {
    open spec fn obeys_eq_spec() -> bool {
        true
    }

    open spec fn eq_spec(&self, other: &Self) -> bool {
        self@ == other@
    }
}

/// How a separator is shown: a quoted, escaped text, or the pattern of a regex.
pub open spec fn separator_display(s: SeparatorView) -> Seq<char> {
    match s {
        SeparatorView::Text(t) => "'"@ + escaped_text(t) + "'"@,
        SeparatorView::Pattern(p) => "regular expression '"@ + p + "'"@,
    }
}

impl Separator {
    /// How the separator is shown.
    pub fn to_display_string(&self) -> (s: String)
        ensures
            s@ == separator_display(self@),
    {
        let mut s = match self {
            Separator::String(text) => {
                let mut s = string_from_str("'");
                s.append(crate::escape::escape_str(text.as_str()).as_str());
                s
            },
            Separator::Regex(regex) => {
                let mut s = string_from_str("regular expression '");
                s.append(regex.as_str());
                s
            },
        };
        s.append("'");
        assert(s@ =~= separator_display(self@));
        s
    }

    /// A separator with the same view.
    pub fn duplicate(&self) -> (r: Separator)
        ensures
            r@ == self@,
    {
        match self {
            Separator::String(text) => Separator::String(string_from_str(text.as_str())),
            Separator::Regex(regex) => Separator::Regex(regex.duplicate()),
        }
    }
}

/// A value together with the byte range of the pattern source that it was read from.
#[derive(Debug, PartialEq)]
pub struct Parsed<T> {
    pub value: T,
    pub range: std::ops::Range<usize>,
}

/// Why a pattern could not be parsed.
#[derive(Debug, PartialEq, Clone)]
pub enum ErrorKind {
    ExpectedColumnSeparator,
    ExpectedDelimiterChar,
    ExpectedFieldSeparator,
    ExpectedFilter,
    ExpectedNumber,
    ExpectedFilterOrExprEnd,
    ExpectedPipeOrExprEnd,
    ExpectedRange,
    ExpectedRangeDelimiter(Option<Char>),
    ExpectedRangeLength,
    ExpectedRegex,
    ExpectedRegexMatcher,
    ExpectedRegexSwitch,
    ExpectedRepetition,
    ExpectedSubstitution,
    ExpectedVariable,
    ExprStartInsideExpr,
    IndexZero,
    IntegerOverflow(String),
    PaddingPrefixInvalid(char, Option<Char>),
    PipeOutsideExpr,
    RangeInvalid(String),
    RangeStartOverEnd(String, String),
    RegexCaptureZero,
    RegexInvalid(AnyString),
    RegexSwitchWithoutMatcher(Char, usize),
    RepetitionWithoutDelimiter,
    SubstitutionWithoutTarget(Char),
    UnknownEscapeSequence(EscapeSequence),
    UnknownFilter(Char),
    UnknownVariable(Char),
    UnmatchedExprEnd,
    UnmatchedExprStart,
    UnterminatedEscapeSequence(char),
}

/// The mathematical content of an [`ErrorKind`]: texts become character sequences,
/// and messages taken from outside libraries are left out.
pub enum ErrorKindView {
    ExpectedColumnSeparator,
    ExpectedDelimiterChar,
    ExpectedFieldSeparator,
    ExpectedFilter,
    ExpectedNumber,
    ExpectedFilterOrExprEnd,
    ExpectedPipeOrExprEnd,
    ExpectedRange,
    ExpectedRangeDelimiter(Option<Char>),
    ExpectedRangeLength,
    ExpectedRegex,
    ExpectedRegexMatcher,
    ExpectedRegexSwitch,
    ExpectedRepetition,
    ExpectedSubstitution,
    ExpectedVariable,
    ExprStartInsideExpr,
    IndexZero,
    IntegerOverflow(Seq<char>),
    PaddingPrefixInvalid(char, Option<Char>),
    PipeOutsideExpr,
    RangeInvalid(Seq<char>),
    RangeStartOverEnd(Seq<char>, Seq<char>),
    RegexCaptureZero,
    RegexInvalid,
    RegexSwitchWithoutMatcher(Char, usize),
    RepetitionWithoutDelimiter,
    SubstitutionWithoutTarget(Char),
    UnknownEscapeSequence(char, char),
    UnknownFilter(Char),
    UnknownVariable(Char),
    UnmatchedExprEnd,
    UnmatchedExprStart,
    UnterminatedEscapeSequence(char),
}

impl View for ErrorKind {
    type V = ErrorKindView;

    open spec fn view(&self) -> ErrorKindView {
        match self {
            ErrorKind::ExpectedColumnSeparator => ErrorKindView::ExpectedColumnSeparator,
            ErrorKind::ExpectedDelimiterChar => ErrorKindView::ExpectedDelimiterChar,
            ErrorKind::ExpectedFieldSeparator => ErrorKindView::ExpectedFieldSeparator,
            ErrorKind::ExpectedFilter => ErrorKindView::ExpectedFilter,
            ErrorKind::ExpectedNumber => ErrorKindView::ExpectedNumber,
            ErrorKind::ExpectedFilterOrExprEnd => ErrorKindView::ExpectedFilterOrExprEnd,
            ErrorKind::ExpectedPipeOrExprEnd => ErrorKindView::ExpectedPipeOrExprEnd,
            ErrorKind::ExpectedRange => ErrorKindView::ExpectedRange,
            ErrorKind::ExpectedRangeDelimiter(c) => ErrorKindView::ExpectedRangeDelimiter(*c),
            ErrorKind::ExpectedRangeLength => ErrorKindView::ExpectedRangeLength,
            ErrorKind::ExpectedRegex => ErrorKindView::ExpectedRegex,
            ErrorKind::ExpectedRegexMatcher => ErrorKindView::ExpectedRegexMatcher,
            ErrorKind::ExpectedRegexSwitch => ErrorKindView::ExpectedRegexSwitch,
            ErrorKind::ExpectedRepetition => ErrorKindView::ExpectedRepetition,
            ErrorKind::ExpectedSubstitution => ErrorKindView::ExpectedSubstitution,
            ErrorKind::ExpectedVariable => ErrorKindView::ExpectedVariable,
            ErrorKind::ExprStartInsideExpr => ErrorKindView::ExprStartInsideExpr,
            ErrorKind::IndexZero => ErrorKindView::IndexZero,
            ErrorKind::IntegerOverflow(max) => ErrorKindView::IntegerOverflow(max@),
            ErrorKind::PaddingPrefixInvalid(p, c) => ErrorKindView::PaddingPrefixInvalid(*p, *c),
            ErrorKind::PipeOutsideExpr => ErrorKindView::PipeOutsideExpr,
            ErrorKind::RangeInvalid(v) => ErrorKindView::RangeInvalid(v@),
            ErrorKind::RangeStartOverEnd(a, b) => ErrorKindView::RangeStartOverEnd(a@, b@),
            ErrorKind::RegexCaptureZero => ErrorKindView::RegexCaptureZero,
            ErrorKind::RegexInvalid(_) => ErrorKindView::RegexInvalid,
            ErrorKind::RegexSwitchWithoutMatcher(c, i) => ErrorKindView::RegexSwitchWithoutMatcher(*c, *i),
            ErrorKind::RepetitionWithoutDelimiter => ErrorKindView::RepetitionWithoutDelimiter,
            ErrorKind::SubstitutionWithoutTarget(c) => ErrorKindView::SubstitutionWithoutTarget(*c),
            ErrorKind::UnknownEscapeSequence(s) => ErrorKindView::UnknownEscapeSequence(s@[0], s@[1]),
            ErrorKind::UnknownFilter(c) => ErrorKindView::UnknownFilter(*c),
            ErrorKind::UnknownVariable(c) => ErrorKindView::UnknownVariable(*c),
            ErrorKind::UnmatchedExprEnd => ErrorKindView::UnmatchedExprEnd,
            ErrorKind::UnmatchedExprStart => ErrorKindView::UnmatchedExprStart,
            ErrorKind::UnterminatedEscapeSequence(c) => ErrorKindView::UnterminatedEscapeSequence(*c),
        }
    }
}

/// The mathematical content of an [`Error`].
pub struct ErrorView {
    pub kind: ErrorKindView,
    pub start: usize,
    pub end: usize,
}

impl View for Error {
    type V = ErrorView;

    open spec fn view(&self) -> ErrorView {
        ErrorView { kind: self.kind@, start: self.range.start, end: self.range.end }
    }
}

/// An error view built from its kind and byte range.
pub open spec fn error_at(kind: ErrorKindView, start: nat, end: nat) -> ErrorView {
    ErrorView { kind, start: start as usize, end: end as usize }
}

/// The mathematical content of a parse result.
pub open spec fn result_view<T: View>(r: Result<T>) -> std::result::Result<T::V, ErrorView> {
    match r {
        Ok(v) => Ok(v@),
        Err(e) => Err(e@),
    }
}

/// Where a user should look for help about an error.
#[derive(Debug, PartialEq, Clone, Copy)]
pub enum ErrorHint {
    PatternSyntax,
    FilterUsage,
}

/// A parse error and the byte range of the pattern source where it was found.
#[derive(Debug, PartialEq)]
pub struct Error {
    pub kind: ErrorKind,
    pub range: std::ops::Range<usize>,
}

/// Result of parsing.
pub type Result<T> = std::result::Result<T, Error>;

/// The range of an error result lies within the first `width` bytes of the source.
pub open spec fn error_within<T>(r: Result<T>, width: nat) -> bool {
    r matches Err(e) ==> e.range.start <= width && e.range.end <= width
}

/// Result of a parsing step that does not know its position yet.
pub type BaseResult<T> = std::result::Result<T, ErrorKind>;

impl ErrorKind {
    /// Which help text covers this error.
    pub open spec fn hint_spec(&self) -> Option<ErrorHint> {
        match self {
            ErrorKind::IntegerOverflow(_) => None,
            ErrorKind::ExpectedFilter | ErrorKind::ExpectedFilterOrExprEnd
            | ErrorKind::ExpectedPipeOrExprEnd | ErrorKind::ExprStartInsideExpr
            | ErrorKind::PipeOutsideExpr | ErrorKind::RegexInvalid(_)
            | ErrorKind::UnknownEscapeSequence(_)
            | ErrorKind::UnmatchedExprEnd | ErrorKind::UnmatchedExprStart
            | ErrorKind::UnterminatedEscapeSequence(_) => Some(ErrorHint::PatternSyntax),
            _ => Some(ErrorHint::FilterUsage),
        }
    }

    /// Which help text covers this error.
    pub fn hint(&self) -> (h: Option<ErrorHint>)
        ensures
            h == self.hint_spec(),
    {
        match self {
            ErrorKind::IntegerOverflow(_) => None,
            ErrorKind::ExpectedFilter | ErrorKind::ExpectedFilterOrExprEnd
            | ErrorKind::ExpectedPipeOrExprEnd | ErrorKind::ExprStartInsideExpr
            | ErrorKind::PipeOutsideExpr | ErrorKind::RegexInvalid(_)
            | ErrorKind::UnknownEscapeSequence(_)
            | ErrorKind::UnmatchedExprEnd | ErrorKind::UnmatchedExprStart
            | ErrorKind::UnterminatedEscapeSequence(_) => Some(ErrorHint::PatternSyntax),
            _ => Some(ErrorHint::FilterUsage),
        }
    }

    /// The message that describes this error.
    pub open spec fn message(&self) -> Seq<char> {
        match self {
            ErrorKind::ExpectedColumnSeparator => "Expected column separator"@,
            ErrorKind::ExpectedDelimiterChar => "Expected delimiter character"@,
            ErrorKind::ExpectedFieldSeparator => "Expected field separator"@,
            ErrorKind::ExpectedFilter => "Expected filter after '|'"@,
            ErrorKind::ExpectedNumber => "Expected number"@,
            ErrorKind::ExpectedFilterOrExprEnd => "Expected filter or closing '}'"@,
            ErrorKind::ExpectedPipeOrExprEnd => "Expected '|' or closing '}'"@,
            ErrorKind::ExpectedRange => "Expected range 'A-B', 'A-', 'A' or 'A+B'"@,
            ErrorKind::ExpectedRangeDelimiter(None) => "Expected range delimiter '-'"@,
            ErrorKind::ExpectedRangeDelimiter(Some(c)) => "Expected range delimiter '-' but got "@
                + c.display(),
            ErrorKind::ExpectedRangeLength => "Expected range length after '+'"@,
            ErrorKind::ExpectedRegex => "Expected regular expression"@,
            ErrorKind::ExpectedRegexMatcher => "Expected regular expression matcher"@,
            ErrorKind::ExpectedRegexSwitch => "Expected switch ':X1:Y1:...:Xn:Yn:D'"@,
            ErrorKind::ExpectedRepetition => "Expected repetition 'N:V' or 'N'"@,
            ErrorKind::ExpectedSubstitution => "Expected substitution ':A:B' or ':A'"@,
            ErrorKind::ExpectedVariable => "Expected variable"@,
            ErrorKind::ExprStartInsideExpr => "Unescaped '{' inside expression"@,
            ErrorKind::IndexZero => "Indices start from 1, not 0"@,
            ErrorKind::IntegerOverflow(max) => "Cannot parse value greater than "@ + max@,
            ErrorKind::PaddingPrefixInvalid(prefix, None) => "Expected '"@ + seq![*prefix]
                + "' prefix or number"@,
            ErrorKind::PaddingPrefixInvalid(prefix, Some(c)) => "Expected '"@ + seq![*prefix]
                + "' prefix or number but got "@ + c.display(),
            ErrorKind::PipeOutsideExpr => "Unescaped '|' outside expression"@,
            ErrorKind::RangeInvalid(value) => "Invalid range '"@ + escaped_text(value@) + "'"@,
            ErrorKind::RangeStartOverEnd(start, end) => "Range start "@ + start@
                + " is greater than end "@ + end@,
            ErrorKind::RegexCaptureZero => "Regular expression captures start from 1, not 0"@,
            ErrorKind::RegexInvalid(value) => "Invalid regular expression '"@ + value.0@ + "'"@,
            ErrorKind::RegexSwitchWithoutMatcher(c, index) => "Switch is missing value after "@
                + c.display() + " delimiter #"@ + crate::text::decimal((*index + 1) as nat),
            ErrorKind::RepetitionWithoutDelimiter => "Repetition is missing delimiter after number"@,
            ErrorKind::SubstitutionWithoutTarget(c) => "Substitution is missing value after "@
                + c.display() + " delimiter"@,
            ErrorKind::UnknownEscapeSequence(seq) => "Unknown escape sequence '"@ + escaped_char(
                seq@[0],
            ) + escaped_char(seq@[1]) + "'"@,
            ErrorKind::UnknownFilter(c) => "Unknown filter "@ + c.display(),
            ErrorKind::UnknownVariable(c) => "Unknown variable "@ + c.display(),
            ErrorKind::UnmatchedExprEnd => "No matching '{' before expression end"@,
            ErrorKind::UnmatchedExprStart => "No matching '}' after expression start"@,
            ErrorKind::UnterminatedEscapeSequence(escape) => "Unterminated escape sequence '"@
                + escaped_char(*escape) + "'"@,
        }
    }

    /// The message that describes this error.
    pub fn to_message(&self) -> (s: String)
        ensures
            s@ == self.message(),
    {
        let s = match self {
            ErrorKind::ExpectedColumnSeparator => string_from_str("Expected column separator"),
            ErrorKind::ExpectedDelimiterChar => string_from_str("Expected delimiter character"),
            ErrorKind::ExpectedFieldSeparator => string_from_str("Expected field separator"),
            ErrorKind::ExpectedFilter => string_from_str("Expected filter after '|'"),
            ErrorKind::ExpectedNumber => string_from_str("Expected number"),
            ErrorKind::ExpectedFilterOrExprEnd => string_from_str("Expected filter or closing '}'"),
            ErrorKind::ExpectedPipeOrExprEnd => string_from_str("Expected '|' or closing '}'"),
            ErrorKind::ExpectedRange => string_from_str("Expected range 'A-B', 'A-', 'A' or 'A+B'"),
            ErrorKind::ExpectedRangeDelimiter(None) => string_from_str(
                "Expected range delimiter '-'",
            ),
            ErrorKind::ExpectedRangeDelimiter(Some(c)) => {
                let mut s = string_from_str("Expected range delimiter '-' but got ");
                s.append(c.to_display_string().as_str());
                s
            },
            ErrorKind::ExpectedRangeLength => string_from_str("Expected range length after '+'"),
            ErrorKind::ExpectedRegex => string_from_str("Expected regular expression"),
            ErrorKind::ExpectedRegexMatcher => string_from_str("Expected regular expression matcher"),
            ErrorKind::ExpectedRegexSwitch => string_from_str("Expected switch ':X1:Y1:...:Xn:Yn:D'"),
            ErrorKind::ExpectedRepetition => string_from_str("Expected repetition 'N:V' or 'N'"),
            ErrorKind::ExpectedSubstitution => string_from_str(
                "Expected substitution ':A:B' or ':A'",
            ),
            ErrorKind::ExpectedVariable => string_from_str("Expected variable"),
            ErrorKind::ExprStartInsideExpr => string_from_str("Unescaped '{' inside expression"),
            ErrorKind::IndexZero => string_from_str("Indices start from 1, not 0"),
            ErrorKind::IntegerOverflow(max) => {
                let mut s = string_from_str("Cannot parse value greater than ");
                s.append(max.as_str());
                s
            },
            ErrorKind::PaddingPrefixInvalid(prefix, None) => {
                let mut s = string_from_str("Expected '");
                crate::text::push_char(&mut s, *prefix);
                s.append("' prefix or number");
                s
            },
            ErrorKind::PaddingPrefixInvalid(prefix, Some(c)) => {
                let mut s = string_from_str("Expected '");
                crate::text::push_char(&mut s, *prefix);
                s.append("' prefix or number but got ");
                s.append(c.to_display_string().as_str());
                s
            },
            ErrorKind::PipeOutsideExpr => string_from_str("Unescaped '|' outside expression"),
            ErrorKind::RangeInvalid(value) => {
                let mut s = string_from_str("Invalid range '");
                s.append(crate::escape::escape_str(value.as_str()).as_str());
                s.append("'");
                s
            },
            ErrorKind::RangeStartOverEnd(start, end) => {
                let mut s = string_from_str("Range start ");
                s.append(start.as_str());
                s.append(" is greater than end ");
                s.append(end.as_str());
                s
            },
            ErrorKind::RegexCaptureZero => string_from_str(
                "Regular expression captures start from 1, not 0",
            ),
            ErrorKind::RegexInvalid(value) => {
                let mut s = string_from_str("Invalid regular expression '");
                s.append(value.0.as_str());
                s.append("'");
                s
            },
            ErrorKind::RegexSwitchWithoutMatcher(c, index) => {
                let mut s = string_from_str("Switch is missing value after ");
                s.append(c.to_display_string().as_str());
                s.append(" delimiter #");
                crate::text::push_decimal(&mut s, *index as u128 + 1);
                s
            },
            ErrorKind::RepetitionWithoutDelimiter => string_from_str(
                "Repetition is missing delimiter after number",
            ),
            ErrorKind::SubstitutionWithoutTarget(c) => {
                let mut s = string_from_str("Substitution is missing value after ");
                s.append(c.to_display_string().as_str());
                s.append(" delimiter");
                s
            },
            ErrorKind::UnknownEscapeSequence(seq) => {
                let mut s = string_from_str("Unknown escape sequence '");
                crate::escape::append_escaped_char(&mut s, seq[0]);
                crate::escape::append_escaped_char(&mut s, seq[1]);
                s.append("'");
                s
            },
            ErrorKind::UnknownFilter(c) => {
                let mut s = string_from_str("Unknown filter ");
                s.append(c.to_display_string().as_str());
                s
            },
            ErrorKind::UnknownVariable(c) => {
                let mut s = string_from_str("Unknown variable ");
                s.append(c.to_display_string().as_str());
                s
            },
            ErrorKind::UnmatchedExprEnd => string_from_str("No matching '{' before expression end"),
            ErrorKind::UnmatchedExprStart => string_from_str(
                "No matching '}' after expression start",
            ),
            ErrorKind::UnterminatedEscapeSequence(escape) => {
                let mut s = string_from_str("Unterminated escape sequence '");
                crate::escape::append_escaped_char(&mut s, *escape);
                s.append("'");
                s
            },
        };
        assert(s@ =~= self.message());
        s
    }
}

/// Errors that point at a byte range of the pattern source.
pub trait GetErrorRange {
    /// The byte range that the error points at.
    spec fn error_range_spec(&self) -> std::ops::Range<usize>;

    /// The byte range that the error points at.
    fn error_range(&self) -> (r: &std::ops::Range<usize>)
        ensures
            *r == self.error_range_spec(),
    ;
}

impl GetErrorRange for Error {
    open spec fn error_range_spec(&self) -> std::ops::Range<usize> {
        self.range
    }

    fn error_range(&self) -> (r: &std::ops::Range<usize>) {
        &self.range
    }
}

impl Error {
    /// The byte range of the pattern source where the error was found.
    pub fn range(&self) -> (r: &std::ops::Range<usize>)
        ensures
            *r == self.range,
    {
        &self.range
    }

    /// The full message of this error.
    pub open spec fn message(&self) -> Seq<char> {
        "Invalid pattern: "@ + self.kind.message()
    }

    /// The full message of this error (what the error displays as).
    pub fn to_message(&self) -> (s: String)
        ensures
            s@ == self.message(),
    {
        let mut s = string_from_str("Invalid pattern: ");
        s.append(self.kind.to_message().as_str());
        s
    }
}

} // verus!
