use vstd::prelude::*;
use crate::chars::chars_values;
use crate::column::{Column, ColumnView};
use crate::eval::{BaseResult, Context, ErrorKindView as EvalErrorView, base_view};
use crate::field::indexed_separator_result;
use crate::integer::{digit_count, read_number_result};
use crate::number::{NumberRange, NumberRangeType};
use crate::padding::{Padding, PaddingView, padding_result};
use crate::parse::{Config, Error, ErrorKind, ErrorKindView, ErrorView, Result, SeparatorView, error_at};
use crate::range::{RANGE_TO, RangeView, char_at, range_result, rules};
use crate::reader::{Cursor, Reader};
use crate::regexp::{RegexHolder, regex_valid};
use crate::repetition::{Repetition, RepetitionView, repetition_result, repeat_text};
use crate::split::{part_at, separator_parts, separator_parts_backward};
use crate::substitution::{EmptySubstitution, RegexSubstitution, StringSubstitution, SubstitutionView, substitution_result};
use crate::substr::{CharIndexRange, CharIndexRangeType};
use crate::switch::{RegexSwitch, RegexSwitchView, switch_result, switch_value};
use crate::text::{decimal, decimal_string, string_from_str};

pub mod format;
pub mod generate;
pub mod path;
pub mod regexp;
pub mod string;
pub mod substr;

verus! {

/// A step of an expression: what it does to the value that passes through it.
#[derive(Debug, PartialEq)]
pub enum Filter {
    WorkingDir,
    AbsolutePath,
    RelativePath,
    NormalizedPath,
    CanonicalPath,
    ParentDirectory,
    RemoveLastName,
    FileName,
    LastName,
    BaseName,
    RemoveExtension,
    Extension,
    ExtensionWithDot,
    EnsureTrailDirSeparator,
    RemoveTrailDirSeparator,
    Substring(CharIndexRange),
    SubstringRev(CharIndexRange),
    GetColumn(Column),
    GetColumnRev(Column),
    ReplaceFirst(StringSubstitution),
    ReplaceAll(StringSubstitution),
    ReplaceEmpty(EmptySubstitution),
    RegexMatch(RegexHolder),
    RegexReplaceFirst(RegexSubstitution),
    RegexReplaceAll(RegexSubstitution),
    RegexSwitch(RegexSwitch),
    RegexCapture(usize),
    Trim,
    ToLowercase,
    ToUppercase,
    ToAscii,
    RemoveNonAscii,
    LeftPad(Padding),
    RightPad(Padding),
    Repeat(Repetition),
    LocalCounter,
    GlobalCounter,
    RandomNumber(NumberRange),
    RandomUuid,
}

/// The mathematical content of a [`Filter`].
pub enum FilterView {
    WorkingDir,
    AbsolutePath,
    RelativePath,
    NormalizedPath,
    CanonicalPath,
    ParentDirectory,
    RemoveLastName,
    FileName,
    LastName,
    BaseName,
    RemoveExtension,
    Extension,
    ExtensionWithDot,
    EnsureTrailDirSeparator,
    RemoveTrailDirSeparator,
    Substring(RangeView),
    SubstringRev(RangeView),
    GetColumn(ColumnView),
    GetColumnRev(ColumnView),
    ReplaceFirst(SubstitutionView<Seq<char>>),
    ReplaceAll(SubstitutionView<Seq<char>>),
    ReplaceEmpty(Seq<char>),
    RegexMatch(Seq<char>),
    RegexReplaceFirst(SubstitutionView<Seq<char>>),
    RegexReplaceAll(SubstitutionView<Seq<char>>),
    RegexSwitch(RegexSwitchView),
    RegexCapture(usize),
    Trim,
    ToLowercase,
    ToUppercase,
    ToAscii,
    RemoveNonAscii,
    LeftPad(PaddingView),
    RightPad(PaddingView),
    Repeat(RepetitionView),
    LocalCounter,
    GlobalCounter,
    RandomNumber(RangeView),
    RandomUuid,
}

impl View for Filter {
    type V = FilterView;

    open spec fn view(&self) -> FilterView {
        match self {
            Filter::WorkingDir => FilterView::WorkingDir,
            Filter::AbsolutePath => FilterView::AbsolutePath,
            Filter::RelativePath => FilterView::RelativePath,
            Filter::NormalizedPath => FilterView::NormalizedPath,
            Filter::CanonicalPath => FilterView::CanonicalPath,
            Filter::ParentDirectory => FilterView::ParentDirectory,
            Filter::RemoveLastName => FilterView::RemoveLastName,
            Filter::FileName => FilterView::FileName,
            Filter::LastName => FilterView::LastName,
            Filter::BaseName => FilterView::BaseName,
            Filter::RemoveExtension => FilterView::RemoveExtension,
            Filter::Extension => FilterView::Extension,
            Filter::ExtensionWithDot => FilterView::ExtensionWithDot,
            Filter::EnsureTrailDirSeparator => FilterView::EnsureTrailDirSeparator,
            Filter::RemoveTrailDirSeparator => FilterView::RemoveTrailDirSeparator,
            Filter::Substring(r) => FilterView::Substring(r@),
            Filter::SubstringRev(r) => FilterView::SubstringRev(r@),
            Filter::GetColumn(c) => FilterView::GetColumn(c@),
            Filter::GetColumnRev(c) => FilterView::GetColumnRev(c@),
            Filter::ReplaceFirst(s) => FilterView::ReplaceFirst(s@),
            Filter::ReplaceAll(s) => FilterView::ReplaceAll(s@),
            Filter::ReplaceEmpty(s) => FilterView::ReplaceEmpty(s.replacement@),
            Filter::RegexMatch(r) => FilterView::RegexMatch(r@),
            Filter::RegexReplaceFirst(s) => FilterView::RegexReplaceFirst(s@),
            Filter::RegexReplaceAll(s) => FilterView::RegexReplaceAll(s@),
            Filter::RegexSwitch(s) => FilterView::RegexSwitch(s@),
            Filter::RegexCapture(n) => FilterView::RegexCapture(*n),
            Filter::Trim => FilterView::Trim,
            Filter::ToLowercase => FilterView::ToLowercase,
            Filter::ToUppercase => FilterView::ToUppercase,
            Filter::ToAscii => FilterView::ToAscii,
            Filter::RemoveNonAscii => FilterView::RemoveNonAscii,
            Filter::LeftPad(p) => FilterView::LeftPad(p@),
            Filter::RightPad(p) => FilterView::RightPad(p@),
            Filter::Repeat(r) => FilterView::Repeat(r@),
            Filter::LocalCounter => FilterView::LocalCounter,
            Filter::GlobalCounter => FilterView::GlobalCounter,
            Filter::RandomNumber(r) => FilterView::RandomNumber(r@),
            Filter::RandomUuid => FilterView::RandomUuid,
        }
    }
}

/// The filter that a character without arguments stands for.
pub open spec fn simple_filter(c: char) -> Option<FilterView> {
    if c == 'w' {
        Some(FilterView::WorkingDir)
    } else if c == 'a' {
        Some(FilterView::AbsolutePath)
    } else if c == 'A' {
        Some(FilterView::RelativePath)
    } else if c == 'p' {
        Some(FilterView::NormalizedPath)
    } else if c == 'P' {
        Some(FilterView::CanonicalPath)
    } else if c == 'd' {
        Some(FilterView::ParentDirectory)
    } else if c == 'D' {
        Some(FilterView::RemoveLastName)
    } else if c == 'f' {
        Some(FilterView::FileName)
    } else if c == 'F' {
        Some(FilterView::LastName)
    } else if c == 'b' {
        Some(FilterView::BaseName)
    } else if c == 'B' {
        Some(FilterView::RemoveExtension)
    } else if c == 'e' {
        Some(FilterView::Extension)
    } else if c == 'E' {
        Some(FilterView::ExtensionWithDot)
    } else if c == 'z' {
        Some(FilterView::EnsureTrailDirSeparator)
    } else if c == 'Z' {
        Some(FilterView::RemoveTrailDirSeparator)
    } else if c == 't' {
        Some(FilterView::Trim)
    } else if c == 'v' {
        Some(FilterView::ToLowercase)
    } else if c == '^' {
        Some(FilterView::ToUppercase)
    } else if c == 'i' {
        Some(FilterView::ToAscii)
    } else if c == 'I' {
        Some(FilterView::RemoveNonAscii)
    } else if c == 'c' {
        Some(FilterView::LocalCounter)
    } else if c == 'C' {
        Some(FilterView::GlobalCounter)
    } else if c == 'U' {
        Some(FilterView::RandomUuid)
    } else {
        None
    }
}

/// A range of character indices read from `r`, as a substring filter (from the end when
/// `backward`).
pub open spec fn char_range_filter(r: Cursor, backward: bool) -> (std::result::Result<FilterView, ErrorView>, int) {
    match range_result(r, rules::<CharIndexRangeType>()) {
        (Ok(v), i) => (Ok(if backward { FilterView::SubstringRev(v) } else { FilterView::Substring(v) }), i),
        (Err(e), i) => (Err(e), i),
    }
}

/// A column read from `r` (counted from the end when `backward`), with `separator` where
/// it names none.
pub open spec fn column_filter(r: Cursor, separator: SeparatorView, backward: bool) -> (
    std::result::Result<FilterView, ErrorView>,
    int,
) {
    match indexed_separator_result(r, separator, ErrorKindView::ExpectedColumnSeparator) {
        (Ok((index, sep)), i) => {
            let c = ColumnView { index: index as usize, separator: sep };
            (Ok(if backward { FilterView::GetColumnRev(c) } else { FilterView::GetColumn(c) }), i)
        },
        (Err(e), i) => (Err(e), i),
    }
}

/// What parsing a filter from `r` gives, with the index of the reader afterwards: a
/// character picks the filter and what follows it is its argument; a column that names no
/// separator uses `separator`.
pub open spec fn filter_result(r: Cursor, separator: SeparatorView) -> (std::result::Result<FilterView, ErrorView>, int) {
    let i0 = r.index;
    if i0 >= r.chars.len() {
        (Err(error_at(ErrorKindView::ExpectedFilter, r.pos(), r.end_pos())), i0)
    } else {
        let c = r.chars[i0].value();
        let r1 = r.at(i0 + 1);
        match simple_filter(c) {
            Some(f) => (Ok(f), i0 + 1),
            None => if c == '#' {
                if char_at(r, i0 + 1, RANGE_TO) {
                    char_range_filter(r.at(i0 + 2), true)
                } else {
                    char_range_filter(r1, false)
                }
            } else if c == '&' {
                if char_at(r, i0 + 1, RANGE_TO) {
                    column_filter(r.at(i0 + 2), separator, true)
                } else {
                    column_filter(r1, separator, false)
                }
            } else if c == 'r' {
                match substitution_result(r1, false) {
                    (Ok(v), i) => (Ok(FilterView::ReplaceFirst(v)), i),
                    (Err(e), i) => (Err(e), i),
                }
            } else if c == 'R' {
                match substitution_result(r1, false) {
                    (Ok(v), i) => (Ok(FilterView::ReplaceAll(v)), i),
                    (Err(e), i) => (Err(e), i),
                }
            } else if c == '?' {
                (Ok(FilterView::ReplaceEmpty(chars_values(r1.rest()))), r.chars.len() as int)
            } else if c == '=' {
                if r1.rest().len() == 0 {
                    (Err(error_at(ErrorKindView::ExpectedRegex, r1.pos(), r1.pos())), r.chars.len() as int)
                } else if regex_valid(chars_values(r1.rest())) {
                    (Ok(FilterView::RegexMatch(chars_values(r1.rest()))), r.chars.len() as int)
                } else {
                    (Err(error_at(ErrorKindView::RegexInvalid, r1.pos(), r1.end_pos())), r.chars.len() as int)
                }
            } else if c == 's' {
                match substitution_result(r1, true) {
                    (Ok(v), i) => (Ok(FilterView::RegexReplaceFirst(v)), i),
                    (Err(e), i) => (Err(e), i),
                }
            } else if c == 'S' {
                match substitution_result(r1, true) {
                    (Ok(v), i) => (Ok(FilterView::RegexReplaceAll(v)), i),
                    (Err(e), i) => (Err(e), i),
                }
            } else if c == '@' {
                match switch_result(r1) {
                    (Ok((cases, default)), i) => (Ok(FilterView::RegexSwitch(RegexSwitchView { cases, default })), i),
                    (Err(e), i) => (Err(e), i),
                }
            } else if c == '$' {
                match read_number_result(r1, usize::MAX as nat) {
                    Ok(n) => (Ok(FilterView::RegexCapture(n as usize)), i0 + 1 + digit_count(r1.rest())),
                    Err(e) => (Err(e), i0 + 1 + digit_count(r1.rest())),
                }
            } else if c == '<' {
                match padding_result(r1, '<') {
                    (Ok(v), i) => (Ok(FilterView::LeftPad(v)), i),
                    (Err(e), i) => (Err(e), i),
                }
            } else if c == '>' {
                match padding_result(r1, '>') {
                    (Ok(v), i) => (Ok(FilterView::RightPad(v)), i),
                    (Err(e), i) => (Err(e), i),
                }
            } else if c == '*' {
                match repetition_result(r1) {
                    (Ok(v), i) => (Ok(FilterView::Repeat(v)), i),
                    (Err(e), i) => (Err(e), i),
                }
            } else if c == 'u' {
                match range_result(r1, rules::<NumberRangeType>()) {
                    (Ok(v), i) => (Ok(FilterView::RandomNumber(v)), i),
                    (Err(e), i) => (Err(e), i),
                }
            } else {
                (Err(error_at(ErrorKindView::UnknownFilter(r.chars[i0]), r.pos(), r1.pos())), i0 + 1)
            },
        }
    }
}

} // verus!

verus! {

fn simple_filter_exec(c: char) -> (f: Option<Filter>)
    ensures
        match simple_filter(c) {
            Some(v) => f matches Some(g) && g@ == v,
            None => f is None,
        },
{
    if c == 'w' {
        Some(Filter::WorkingDir)
    } else if c == 'a' {
        Some(Filter::AbsolutePath)
    } else if c == 'A' {
        Some(Filter::RelativePath)
    } else if c == 'p' {
        Some(Filter::NormalizedPath)
    } else if c == 'P' {
        Some(Filter::CanonicalPath)
    } else if c == 'd' {
        Some(Filter::ParentDirectory)
    } else if c == 'D' {
        Some(Filter::RemoveLastName)
    } else if c == 'f' {
        Some(Filter::FileName)
    } else if c == 'F' {
        Some(Filter::LastName)
    } else if c == 'b' {
        Some(Filter::BaseName)
    } else if c == 'B' {
        Some(Filter::RemoveExtension)
    } else if c == 'e' {
        Some(Filter::Extension)
    } else if c == 'E' {
        Some(Filter::ExtensionWithDot)
    } else if c == 'z' {
        Some(Filter::EnsureTrailDirSeparator)
    } else if c == 'Z' {
        Some(Filter::RemoveTrailDirSeparator)
    } else if c == 't' {
        Some(Filter::Trim)
    } else if c == 'v' {
        Some(Filter::ToLowercase)
    } else if c == '^' {
        Some(Filter::ToUppercase)
    } else if c == 'i' {
        Some(Filter::ToAscii)
    } else if c == 'I' {
        Some(Filter::RemoveNonAscii)
    } else if c == 'c' {
        Some(Filter::LocalCounter)
    } else if c == 'C' {
        Some(Filter::GlobalCounter)
    } else if c == 'U' {
        Some(Filter::RandomUuid)
    } else {
        None
    }
}

/// The result of parsing a filter, by view.
pub open spec fn filter_view(r: Result<Filter>) -> std::result::Result<FilterView, ErrorView> {
    crate::parse::result_view(r)
}

/// Parses a range of character indices as a substring filter.
fn parse_char_range(reader: &mut Reader, backward: bool) -> (r: Result<Filter>)
    requires
        old(reader).wf(),
    ensures
        final(reader).wf(),
        final(reader).chars == old(reader).chars,
        crate::parse::error_within(r, old(reader).end_pos()),
        final(reader).index == char_range_filter(old(reader)@, backward).1,
        filter_view(r) == char_range_filter(old(reader)@, backward).0,
{
    match CharIndexRange::parse(reader) {
        Ok(range) => if backward {
            Ok(Filter::SubstringRev(range))
        } else {
            Ok(Filter::Substring(range))
        },
        Err(e) => Err(e),
    }
}

/// Parses a column as a column filter.
fn parse_column(reader: &mut Reader, separator: &crate::parse::Separator, backward: bool) -> (r: Result<Filter>)
    requires
        old(reader).wf(),
    ensures
        final(reader).wf(),
        final(reader).chars == old(reader).chars,
        crate::parse::error_within(r, old(reader).end_pos()),
        final(reader).index == column_filter(old(reader)@, separator@, backward).1,
        filter_view(r) == column_filter(old(reader)@, separator@, backward).0,
{
    match Column::parse(reader, separator) {
        Ok(column) => if backward {
            Ok(Filter::GetColumnRev(column))
        } else {
            Ok(Filter::GetColumn(column))
        },
        Err(e) => Err(e),
    }
}

impl Filter {
    /// Parses one filter; a column that names no separator uses the configured one.
    #[verifier::rlimit(60)]
    #[verifier::spinoff_prover]
    pub fn parse(reader: &mut Reader, config: &Config) -> (r: Result<Filter>)
        requires
            old(reader).wf(),
        ensures
            final(reader).wf(),
            final(reader).chars == old(reader).chars,
            crate::parse::error_within(r, old(reader).end_pos()),
            final(reader).index == filter_result(old(reader)@, config.separator@).1,
            filter_view(r) == filter_result(old(reader)@, config.separator@).0,
    {
        let position = reader.position();
        let ch = match reader.read() {
            Some(ch) => ch,
            None => {
                return Err(Error { kind: ErrorKind::ExpectedFilter, range: position..reader.end() });
            },
        };
        let c = ch.as_char();
        if let Some(f) = simple_filter_exec(c) {
            return Ok(f);
        }
        if c == '#' {
            let backward = reader.read_expected(RANGE_TO);
            parse_char_range(reader, backward)
        } else if c == '&' {
            let backward = reader.read_expected(RANGE_TO);
            parse_column(reader, &config.separator, backward)
        } else if c == 'r' {
            let res = match StringSubstitution::parse(reader) {
                Ok(x) => Ok(Filter::ReplaceFirst(x)),
                Err(e) => Err(e),
            };
            res
        } else if c == 'R' {
            let res = match StringSubstitution::parse(reader) {
                Ok(x) => Ok(Filter::ReplaceAll(x)),
                Err(e) => Err(e),
            };
            res
        } else if c == '?' {
            let res = match EmptySubstitution::parse(reader) {
                Ok(x) => Ok(Filter::ReplaceEmpty(x)),
                Err(e) => Err(e),
            };
            res
        } else if c == '=' {
            let res = match RegexHolder::parse(reader) {
                Ok(x) => Ok(Filter::RegexMatch(x)),
                Err(e) => Err(e),
            };
            res
        } else if c == 's' {
            let res = match RegexSubstitution::parse(reader) {
                Ok(x) => Ok(Filter::RegexReplaceFirst(x)),
                Err(e) => Err(e),
            };
            res
        } else if c == 'S' {
            let res = match RegexSubstitution::parse(reader) {
                Ok(x) => Ok(Filter::RegexReplaceAll(x)),
                Err(e) => Err(e),
            };
            res
        } else if c == '@' {
            let res = match RegexSwitch::parse(reader) {
                Ok(x) => Ok(Filter::RegexSwitch(x)),
                Err(e) => Err(e),
            };
            res
        } else if c == '$' {
            let res = match crate::integer::parse_integer(reader) {
                Ok(n) => Ok(Filter::RegexCapture(n)),
                Err(e) => Err(e),
            };
            res
        } else if c == '<' {
            let res = match Padding::parse(reader, '<') {
                Ok(x) => Ok(Filter::LeftPad(x)),
                Err(e) => Err(e),
            };
            res
        } else if c == '>' {
            let res = match Padding::parse(reader, '>') {
                Ok(x) => Ok(Filter::RightPad(x)),
                Err(e) => Err(e),
            };
            res
        } else if c == '*' {
            let res = match Repetition::parse(reader) {
                Ok(x) => Ok(Filter::Repeat(x)),
                Err(e) => Err(e),
            };
            res
        } else if c == 'u' {
            let res = match NumberRange::parse(reader) {
                Ok(x) => Ok(Filter::RandomNumber(x)),
                Err(e) => Err(e),
            };
            res
        } else {
            Err(Error { kind: ErrorKind::UnknownFilter(ch), range: position..reader.position() })
        }
    }
}

} // verus!

verus! {

/// The full text of a padding.
pub open spec fn padding_text(p: PaddingView) -> Seq<char> {
    match p {
        PaddingView::Fixed(s) => s,
        PaddingView::Repeated(r) => repeat_text(r.value, r.count as nat),
    }
}

/// The text of capture group `n` among `captures`, or nothing.
pub open spec fn capture_text(captures: Option<Vec<Option<String>>>, n: usize) -> Seq<char> {
    match captures {
        Some(groups) => if n < groups@.len() {
            match groups@[n as int] {
                Some(t) => t@,
                None => Seq::<char>::empty(),
            }
        } else {
            Seq::<char>::empty()
        },
        None => Seq::<char>::empty(),
    }
}

/// The number of characters a range of indices spans, if it has an end.
pub open spec fn range_length(r: RangeView) -> Option<nat> {
    match r.end {
        Some(e) => Some((e - r.start) as nat),
        None => None,
    }
}

/// The value relative to the working directory: a relative value as it is, an absolute
/// one as the path that leads to it from `working_dir`.
pub open spec fn relative_text(value: Seq<char>, working_dir: Seq<char>) -> Seq<char> {
    if !path::is_absolute(value) {
        value
    } else {
        match path::path_diff(value, working_dir) {
            Some(p) => p,
            None => Seq::<char>::empty(),
        }
    }
}

/// The value that a filter gives for `value` in `context`, when it depends on them alone.
/// Canonical paths (which depend on the file system) and random values have none.
pub open spec fn eval_text(f: FilterView, value: Seq<char>, context: &Context) -> Option<Seq<char>> {
    match f {
        FilterView::WorkingDir => Some(context.working_dir@),
        FilterView::AbsolutePath => Some(path::absolute_text(value, context.working_dir@)),
        FilterView::RelativePath => Some(relative_text(value, context.working_dir@)),
        FilterView::NormalizedPath => Some(path::normalized_text(value)),
        FilterView::CanonicalPath => None,
        FilterView::ParentDirectory => Some(path::parent_directory_text(value)),
        FilterView::RemoveLastName => Some(
            match path::path_parent(value) {
                Some(p) => p,
                None => value,
            },
        ),
        FilterView::FileName => Some(path::file_name_text(value)),
        FilterView::LastName => Some(path::last_name_text(value)),
        FilterView::BaseName => Some(path::stem_text(value)),
        FilterView::RemoveExtension => Some(path::without_extension_text(value)),
        FilterView::Extension => Some(path::extension_text(value)),
        FilterView::ExtensionWithDot => Some(
            if path::extension_text(value).len() == 0 {
                Seq::<char>::empty()
            } else {
                seq!['.'] + path::extension_text(value)
            },
        ),
        FilterView::EnsureTrailDirSeparator => Some(path::with_trailing_separator(value)),
        FilterView::RemoveTrailDirSeparator => Some(path::without_trailing_separator(value)),
        FilterView::Substring(r) => Some(substr::substring_forward(value, r.start, range_length(r))),
        FilterView::SubstringRev(r) => Some(substr::substring_backward(value, r.start, range_length(r))),
        FilterView::GetColumn(c) => Some(part_at(separator_parts(c.separator, value), c.index as int)),
        FilterView::GetColumnRev(c) => Some(part_at(separator_parts_backward(c.separator, value), c.index as int)),
        FilterView::ReplaceFirst(s) => Some(string::replace_first_text(value, s.target, s.replacement)),
        FilterView::ReplaceAll(s) => Some(string::replace_all_text(value, s.target, s.replacement)),
        FilterView::ReplaceEmpty(r) => Some(
            if value.len() == 0 {
                r
            } else {
                value
            },
        ),
        FilterView::RegexMatch(p) => Some(
            match crate::regexp::regex_first_match(p, value) {
                Some(m) => m,
                None => Seq::<char>::empty(),
            },
        ),
        FilterView::RegexReplaceFirst(s) => Some(
            crate::regexp::regex_replace_first(s.target, value, crate::regexp::bracketed(s.replacement)),
        ),
        FilterView::RegexReplaceAll(s) => Some(
            crate::regexp::regex_replace_all(s.target, value, crate::regexp::bracketed(s.replacement)),
        ),
        FilterView::RegexSwitch(sw) => Some(switch_value(sw.cases, sw.default, value)),
        FilterView::RegexCapture(n) => Some(capture_text(context.regex_captures, n)),
        FilterView::Trim => Some(format::trim_text(value)),
        FilterView::ToLowercase => Some(format::lowercase_text(value)),
        FilterView::ToUppercase => Some(format::uppercase_text(value)),
        FilterView::ToAscii => Some(format::transliterate_text(value)),
        FilterView::RemoveNonAscii => Some(format::ascii_only(value)),
        FilterView::LeftPad(p) => Some(format::left_padded(value, padding_text(p))),
        FilterView::RightPad(p) => Some(format::right_padded(value, padding_text(p))),
        FilterView::Repeat(r) => Some(repeat_text(r.value, r.count as nat)),
        FilterView::LocalCounter => Some(decimal(context.local_counter as nat)),
        FilterView::GlobalCounter => Some(decimal(context.global_counter as nat)),
        FilterView::RandomNumber(_) => None,
        FilterView::RandomUuid => None,
    }
}

/// Whether `result` is a possible outcome of applying the filter `f` to `value`:
/// the exact value where [`eval_text`] gives one; a number of the range (from its start up
/// to its last number) or a UUID for the random filters; for canonical paths, an absolute
/// path free of `.` and `..`, or the failure of canonicalization.
pub open spec fn eval_allows(
    f: FilterView,
    value: Seq<char>,
    context: &Context,
    result: std::result::Result<Seq<char>, EvalErrorView>,
) -> bool {
    match eval_text(f, value, context) {
        Some(t) => result == Ok::<Seq<char>, EvalErrorView>(t),
        None => match f {
            FilterView::RandomNumber(r) => result matches Ok(s) && exists|v: u64|
                r.start <= v && (r.end matches Some(e) ==> v < e || v == r.start) && s == decimal(v as nat),
            FilterView::RandomUuid => result matches Ok(s) && generate::is_uuid_v4_text(s),
            FilterView::CanonicalPath => match result {
                Ok(s) => path::is_canonical_text(s),
                Err(k) => k == EvalErrorView::CanonicalizationFailed,
            },
            _ => true,
        },
    }
}

impl FilterView {
    /// The filter can be applied: its ranges do not end before they start.
    pub open spec fn can_eval(self) -> bool {
        match self {
            FilterView::Substring(r) => r.end matches Some(e) ==> r.start <= e,
            FilterView::SubstringRev(r) => r.end matches Some(e) ==> r.start <= e,
            FilterView::RandomNumber(r) => r.end matches Some(e) ==> r.start <= e,
            _ => true,
        }
    }

    /// The filter can be shown: a random number range that has an end holds at least one
    /// number, so that its last number can be shown.
    pub open spec fn displayable(self) -> bool {
        self matches FilterView::RandomNumber(r) ==> (r.end matches Some(e) ==> e >= 1)
    }

    /// The filter is as parsing makes it: it can be applied and shown.
    pub open spec fn wf(self) -> bool {
        &&& self.can_eval()
        &&& self.displayable()
    }
}

/// A parsed filter is as parsing makes it.
pub proof fn lemma_filter_result_wf(r: Cursor, separator: SeparatorView)
    ensures
        filter_result(r, separator).0 matches Ok(f) ==> f.wf(),
{
    crate::range::lemma_parsed_range_ordered(r.at(r.index + 1), rules::<CharIndexRangeType>());
    crate::range::lemma_parsed_range_ordered(r.at(r.index + 2), rules::<CharIndexRangeType>());
    crate::range::lemma_parsed_range_ordered(r.at(r.index + 1), rules::<NumberRangeType>());
    crate::range::lemma_parsed_range_end(r.at(r.index + 1), rules::<NumberRangeType>());
}

impl Filter {
    /// The filter is as parsing makes it (see [`FilterView::wf`]).
    pub open spec fn wf(&self) -> bool {
        self@.wf()
    }

    /// Applies the filter to a value.
    #[verifier::rlimit(60)]
    #[verifier::spinoff_prover]
    pub fn eval(&self, value: String, context: &Context) -> (r: BaseResult<String>)
        requires
            self@.can_eval(),
        ensures
            eval_allows(self@, value@, context, base_view(r)),
    {
        match self {
            Filter::WorkingDir => Ok(string_from_str(context.working_dir.as_str())),
            Filter::AbsolutePath => path::to_absolute(value, context.working_dir.as_str()),
            Filter::RelativePath => path::to_relative(value, context.working_dir.as_str()),
            Filter::NormalizedPath => path::get_normalized(value),
            Filter::CanonicalPath => path::canonicalize(value, context.working_dir.as_str()),
            Filter::ParentDirectory => path::get_parent_directory(value),
            Filter::RemoveLastName => path::remove_last_name(value),
            Filter::FileName => path::get_file_name(value),
            Filter::LastName => path::get_last_name(value.as_str()),
            Filter::BaseName => path::get_base_name(value),
            Filter::RemoveExtension => path::remove_extension(value),
            Filter::Extension => path::get_extension(value),
            Filter::ExtensionWithDot => path::get_extension_with_dot(value),
            Filter::EnsureTrailDirSeparator => Ok(path::ensure_trailing_dir_separator(value)),
            Filter::RemoveTrailDirSeparator => Ok(path::remove_trailing_dir_separator(value)),
            Filter::Substring(range) => Ok(range.substr(value)),
            Filter::SubstringRev(range) => Ok(range.substr_rev(value)),
            Filter::GetColumn(column) => Ok(column.get(value.as_str())),
            Filter::GetColumnRev(column) => Ok(column.get_backward(value.as_str())),
            Filter::ReplaceFirst(subst) => Ok(subst.replace_first(value.as_str())),
            Filter::ReplaceAll(subst) => Ok(subst.replace_all(value.as_str())),
            Filter::ReplaceEmpty(subst) => Ok(subst.replace(value)),
            Filter::RegexMatch(regex) => regexp::get_match(value, regex),
            Filter::RegexReplaceFirst(subst) => Ok(subst.replace_first(value.as_str())),
            Filter::RegexReplaceAll(subst) => Ok(subst.replace_all(value.as_str())),
            Filter::RegexSwitch(switch) => Ok(switch.eval(value.as_str())),
            Filter::RegexCapture(number) => Ok(string_from_str(context.regex_capture(*number))),
            Filter::Trim => format::trim(value),
            Filter::ToLowercase => format::to_lowercase(value),
            Filter::ToUppercase => format::to_uppercase(value),
            Filter::ToAscii => format::to_ascii(value),
            Filter::RemoveNonAscii => format::remove_non_ascii(value),
            Filter::LeftPad(padding) => Ok(padding.apply_left(value)),
            Filter::RightPad(padding) => Ok(padding.apply_right(value)),
            Filter::Repeat(repetition) => Ok(repetition.expand()),
            Filter::LocalCounter => generate::counter(context.local_counter),
            Filter::GlobalCounter => generate::counter(context.global_counter),
            Filter::RandomNumber(range) => {
                let number = range.random();
                Ok(decimal_string(number as u128))
            },
            Filter::RandomUuid => generate::random_uuid(),
        }
    }
}

} // verus!

verus! {

impl Filter {
    /// How the filter is shown to a user.
    pub open spec fn display(&self) -> Seq<char> {
        match self {
            Filter::WorkingDir => "Working directory"@,
            Filter::AbsolutePath => "Absolute path"@,
            Filter::RelativePath => "Relative path"@,
            Filter::NormalizedPath => "Normalized path"@,
            Filter::CanonicalPath => "Canonical path"@,
            Filter::ParentDirectory => "Parent directory"@,
            Filter::RemoveLastName => "Remove last name"@,
            Filter::FileName => "File name"@,
            Filter::LastName => "Last name"@,
            Filter::BaseName => "Base name"@,
            Filter::RemoveExtension => "Remove extension"@,
            Filter::Extension => "Extension"@,
            Filter::ExtensionWithDot => "Extension with dot"@,
            Filter::EnsureTrailDirSeparator => "Ensure trailing directory separator"@,
            Filter::RemoveTrailDirSeparator => "Remove trailing directory separator"@,
            Filter::Substring(r) => "Substring from "@ + r.display(),
            Filter::SubstringRev(r) => "Substring from "@ + r.display() + " backward"@,
            Filter::GetColumn(c) => "Get "@ + c.display(),
            Filter::GetColumnRev(c) => "Get "@ + c.display() + " backward"@,
            Filter::ReplaceFirst(s) => "Replace first "@ + s.display(),
            Filter::ReplaceAll(s) => "Replace all "@ + s.display(),
            Filter::ReplaceEmpty(s) => "Replace "@ + s.display(),
            Filter::RegexMatch(r) => "Match of regular expression '"@ + r@ + "'"@,
            Filter::RegexReplaceFirst(s) => "Replace first match of regular expression "@ + s.display(),
            Filter::RegexReplaceAll(s) => "Replace all matches of regular expression "@ + s.display(),
            Filter::RegexSwitch(s) => "Regular expression switch with "@ + s.display(),
            Filter::RegexCapture(n) => "Capture group #"@ + decimal(*n as nat) + " of a global regular expression"@,
            Filter::Trim => "Trim"@,
            Filter::ToLowercase => "To lowercase"@,
            Filter::ToUppercase => "To uppercase"@,
            Filter::ToAscii => "To ASCII"@,
            Filter::RemoveNonAscii => "Remove non-ASCII"@,
            Filter::LeftPad(p) => "Left pad with "@ + p.display(),
            Filter::RightPad(p) => "Right pad with "@ + p.display(),
            Filter::Repeat(r) => "Repeat "@ + r.display(),
            Filter::LocalCounter => "Local counter"@,
            Filter::GlobalCounter => "Global counter"@,
            Filter::RandomNumber(r) => "Random number from "@ + r.display(),
            Filter::RandomUuid => "Random UUID"@,
        }
    }

    /// How the filter is shown to a user.
    pub fn to_display_string(&self) -> (s: String)
        requires
            self@.displayable(),
        ensures
            s@ == self.display(),
    {
        match self {
            Filter::WorkingDir => string_from_str("Working directory"),
            Filter::AbsolutePath => string_from_str("Absolute path"),
            Filter::RelativePath => string_from_str("Relative path"),
            Filter::NormalizedPath => string_from_str("Normalized path"),
            Filter::CanonicalPath => string_from_str("Canonical path"),
            Filter::ParentDirectory => string_from_str("Parent directory"),
            Filter::RemoveLastName => string_from_str("Remove last name"),
            Filter::FileName => string_from_str("File name"),
            Filter::LastName => string_from_str("Last name"),
            Filter::BaseName => string_from_str("Base name"),
            Filter::RemoveExtension => string_from_str("Remove extension"),
            Filter::Extension => string_from_str("Extension"),
            Filter::ExtensionWithDot => string_from_str("Extension with dot"),
            Filter::EnsureTrailDirSeparator => string_from_str("Ensure trailing directory separator"),
            Filter::RemoveTrailDirSeparator => string_from_str("Remove trailing directory separator"),
            Filter::Substring(r) => prefixed("Substring from ", r.to_display_string()),
            Filter::SubstringRev(r) => suffixed(prefixed("Substring from ", r.to_display_string()), " backward"),
            Filter::GetColumn(c) => prefixed("Get ", c.to_display_string()),
            Filter::GetColumnRev(c) => suffixed(prefixed("Get ", c.to_display_string()), " backward"),
            Filter::ReplaceFirst(s) => prefixed("Replace first ", s.to_display_string()),
            Filter::ReplaceAll(s) => prefixed("Replace all ", s.to_display_string()),
            Filter::ReplaceEmpty(s) => prefixed("Replace ", s.to_display_string()),
            Filter::RegexMatch(r) => suffixed(prefixed("Match of regular expression '", string_from_str(r.as_str())), "'"),
            Filter::RegexReplaceFirst(s) => prefixed("Replace first match of regular expression ", s.to_display_string()),
            Filter::RegexReplaceAll(s) => prefixed("Replace all matches of regular expression ", s.to_display_string()),
            Filter::RegexSwitch(s) => prefixed("Regular expression switch with ", s.to_display_string()),
            Filter::RegexCapture(n) => suffixed(
                prefixed("Capture group #", decimal_string(*n as u128)),
                " of a global regular expression",
            ),
            Filter::Trim => string_from_str("Trim"),
            Filter::ToLowercase => string_from_str("To lowercase"),
            Filter::ToUppercase => string_from_str("To uppercase"),
            Filter::ToAscii => string_from_str("To ASCII"),
            Filter::RemoveNonAscii => string_from_str("Remove non-ASCII"),
            Filter::LeftPad(p) => prefixed("Left pad with ", p.to_display_string()),
            Filter::RightPad(p) => prefixed("Right pad with ", p.to_display_string()),
            Filter::Repeat(r) => prefixed("Repeat ", r.to_display_string()),
            Filter::LocalCounter => string_from_str("Local counter"),
            Filter::GlobalCounter => string_from_str("Global counter"),
            Filter::RandomNumber(r) => prefixed("Random number from ", r.to_display_string()),
            Filter::RandomUuid => string_from_str("Random UUID"),
        }
    }
}

/// `head` followed by `tail`.
fn prefixed(head: &str, tail: String) -> (s: String)
    ensures
        s@ == head@ + tail@,
{
    let mut s = string_from_str(head);
    s.append(tail.as_str());
    s
}

/// `head` followed by `tail`.
fn suffixed(head: String, tail: &str) -> (s: String)
    ensures
        s@ == head@ + tail@,
{
    let mut s = head;
    s.append(tail);
    s
}

} // verus!
