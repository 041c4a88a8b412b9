use vstd::prelude::*;
use crate::eval::{BaseResult, Context, ErrorKindView, base_view};
use crate::filter::capture_text;
use crate::filter::generate::{is_uuid_v4_text, random_uuid};
use crate::filter::path::{
    extension_text, file_name_text, get_base_name, get_canonical, get_extension, get_extension_with_dot,
    get_file_name, get_parent_path, is_canonical_text, join, join_path, path_parent, stem_text,
};
use crate::integer::{digit_count, parse_integer, read_number_result};
use crate::parse::{Error, ErrorKind, ErrorView, Result, error_at};
use crate::range::digit_at;
use crate::reader::{Cursor, Reader};
use crate::text::{decimal, push_decimal, string_from_str};

verus! {

/// A value that a pattern can refer to: parts of the input path, counters, groups captured
/// by the external regular expression, or a fresh UUID.
#[derive(Debug, PartialEq, Clone, Copy)]
pub enum Variable {
    Path,
    AbsolutePath,
    CanonicalPath,
    FileName,
    BaseName,
    Extension,
    ExtensionWithDot,
    Parent,
    ParentFileName,
    LocalCounter,
    GlobalCounter,
    RegexCapture(usize),
    Uuid,
}

/// The variable that a letter stands for.
pub open spec fn variable_for(c: char) -> Option<Variable> {
    if c == 'p' {
        Some(Variable::Path)
    } else if c == 'a' {
        Some(Variable::AbsolutePath)
    } else if c == 'A' {
        Some(Variable::CanonicalPath)
    } else if c == 'f' {
        Some(Variable::FileName)
    } else if c == 'b' {
        Some(Variable::BaseName)
    } else if c == 'e' {
        Some(Variable::Extension)
    } else if c == 'E' {
        Some(Variable::ExtensionWithDot)
    } else if c == 'd' {
        Some(Variable::Parent)
    } else if c == 'D' {
        Some(Variable::ParentFileName)
    } else if c == 'c' {
        Some(Variable::LocalCounter)
    } else if c == 'C' {
        Some(Variable::GlobalCounter)
    } else if c == 'u' {
        Some(Variable::Uuid)
    } else {
        None
    }
}

/// What parsing a variable from `r` gives, with the index of the reader afterwards: a
/// number is a capture group (from 1), a letter one of the other variables.
pub open spec fn variable_result(r: Cursor) -> (std::result::Result<Variable, ErrorView>, int) {
    let i0 = r.index;
    if digit_at(r, i0) {
        let i1 = i0 + digit_count(r.rest());
        (
            match read_number_result(r, usize::MAX as nat) {
                Err(e) => Err(e),
                Ok(n) => if n > 0 {
                    Ok(Variable::RegexCapture(n as usize))
                } else {
                    Err(error_at(crate::parse::ErrorKindView::RegexCaptureZero, r.pos(), r.pos_at(i1)))
                },
            },
            i1,
        )
    } else if 0 <= i0 < r.chars.len() {
        (
            match variable_for(r.chars[i0].value()) {
                Some(v) => Ok(v),
                None => Err(error_at(crate::parse::ErrorKindView::UnknownVariable(r.chars[i0]), r.pos(), r.pos_at(i0 + 1))),
            },
            i0 + 1,
        )
    } else {
        (Err(error_at(crate::parse::ErrorKindView::ExpectedVariable, r.pos(), r.end_pos())), i0)
    }
}

impl Variable {
    /// Parses a variable.
    pub fn parse(reader: &mut Reader) -> (r: Result<Variable>)
        requires
            old(reader).wf(),
        ensures
            final(reader).wf(),
            final(reader).chars == old(reader).chars,
            crate::parse::error_within(r, old(reader).end_pos()),
            final(reader).index == variable_result(old(reader)@).1,
            match (r, variable_result(old(reader)@).0) {
                (Ok(v), Ok(w)) => v == w,
                (Err(e), Err(f)) => e@ == f,
                _ => false,
            },
    {
        let position = reader.position();
        match reader.peek_char() {
            Some(c) => {
                if '0' <= c && c <= '9' {
                    let number = parse_integer(reader)?;
                    if number > 0 {
                        return Ok(Variable::RegexCapture(number));
                    } else {
                        return Err(Error { kind: ErrorKind::RegexCaptureZero, range: position..reader.position() });
                    }
                }
            },
            None => {},
        }
        match reader.read() {
            Some(c) => {
                let value = c.as_char();
                let variable = if value == 'p' {
                    Variable::Path
                } else if value == 'a' {
                    Variable::AbsolutePath
                } else if value == 'A' {
                    Variable::CanonicalPath
                } else if value == 'f' {
                    Variable::FileName
                } else if value == 'b' {
                    Variable::BaseName
                } else if value == 'e' {
                    Variable::Extension
                } else if value == 'E' {
                    Variable::ExtensionWithDot
                } else if value == 'd' {
                    Variable::Parent
                } else if value == 'D' {
                    Variable::ParentFileName
                } else if value == 'c' {
                    Variable::LocalCounter
                } else if value == 'C' {
                    Variable::GlobalCounter
                } else if value == 'u' {
                    Variable::Uuid
                } else {
                    return Err(Error { kind: ErrorKind::UnknownVariable(c), range: position..reader.position() });
                };
                Ok(variable)
            },
            None => Err(Error { kind: ErrorKind::ExpectedVariable, range: position..reader.end() }),
        }
    }

    /// The value of the variable for the input `path`.
    pub fn eval(&self, path: &str, context: &Context) -> (r: BaseResult<String>)
        ensures
            match *self {
                Variable::Path => base_view(r) == Ok::<Seq<char>, ErrorKindView>(path@),
                Variable::AbsolutePath => base_view(r) == Ok::<Seq<char>, ErrorKindView>(
                    join_path(context.working_dir@, path@),
                ),
                Variable::CanonicalPath => match r {
                    Ok(s) => is_canonical_text(s@),
                    Err(k) => k@ == ErrorKindView::CanonicalizationFailed,
                },
                Variable::FileName => base_view(r) == Ok::<Seq<char>, ErrorKindView>(file_name_text(path@)),
                Variable::BaseName => base_view(r) == Ok::<Seq<char>, ErrorKindView>(stem_text(path@)),
                Variable::Extension => base_view(r) == Ok::<Seq<char>, ErrorKindView>(extension_text(path@)),
                Variable::ExtensionWithDot => base_view(r) == Ok::<Seq<char>, ErrorKindView>(
                    if extension_text(path@).len() == 0 {
                        Seq::<char>::empty()
                    } else {
                        seq!['.'] + extension_text(path@)
                    },
                ),
                Variable::Parent => base_view(r) == Ok::<Seq<char>, ErrorKindView>(parent_text(path@)),
                Variable::ParentFileName => base_view(r) == Ok::<Seq<char>, ErrorKindView>(
                    file_name_text(parent_text(path@)),
                ),
                Variable::LocalCounter => base_view(r) == Ok::<Seq<char>, ErrorKindView>(
                    decimal(context.local_counter as nat),
                ),
                Variable::GlobalCounter => base_view(r) == Ok::<Seq<char>, ErrorKindView>(
                    decimal(context.global_counter as nat),
                ),
                Variable::RegexCapture(n) => base_view(r) == Ok::<Seq<char>, ErrorKindView>(
                    capture_text(context.regex_captures, n),
                ),
                Variable::Uuid => r matches Ok(s) && is_uuid_v4_text(s@),
            },
    {
        let value = string_from_str(path);
        match self {
            Variable::Path => Ok(value),
            Variable::AbsolutePath => Ok(get_absolute_path(path, context.working_dir.as_str())),
            Variable::CanonicalPath => get_canonical(
                get_absolute_path(path, context.working_dir.as_str()),
                context.working_dir.as_str(),
            ),
            Variable::FileName => get_file_name(value),
            Variable::BaseName => get_base_name(value),
            Variable::Extension => get_extension(value),
            Variable::ExtensionWithDot => get_extension_with_dot(value),
            Variable::Parent => get_parent_path(value),
            Variable::ParentFileName => {
                let parent = get_parent_path(value)?;
                get_file_name(parent)
            },
            Variable::LocalCounter => Ok(crate::text::decimal_string(context.local_counter as u128)),
            Variable::GlobalCounter => Ok(crate::text::decimal_string(context.global_counter as u128)),
            Variable::RegexCapture(n) => Ok(string_from_str(context.regex_capture(*n))),
            Variable::Uuid => random_uuid(),
        }
    }

    /// How the variable is shown.
    pub open spec fn display(&self) -> Seq<char> {
        match self {
            Variable::Path => "Path"@,
            Variable::AbsolutePath => "Absolute path"@,
            Variable::CanonicalPath => "Canonical path"@,
            Variable::FileName => "File name"@,
            Variable::BaseName => "Base name"@,
            Variable::Extension => "Extension"@,
            Variable::ExtensionWithDot => "Extension with dot"@,
            Variable::Parent => "Parent"@,
            Variable::ParentFileName => "Parent file name"@,
            Variable::LocalCounter => "Local counter"@,
            Variable::GlobalCounter => "Global counter"@,
            Variable::RegexCapture(index) => "Regex capture ("@ + decimal(*index as nat) + ")"@,
            Variable::Uuid => "UUID"@,
        }
    }

    /// How the variable is shown.
    pub fn to_display_string(&self) -> (s: String)
        ensures
            s@ == self.display(),
    {
        match self {
            Variable::Path => string_from_str("Path"),
            Variable::AbsolutePath => string_from_str("Absolute path"),
            Variable::CanonicalPath => string_from_str("Canonical path"),
            Variable::FileName => string_from_str("File name"),
            Variable::BaseName => string_from_str("Base name"),
            Variable::Extension => string_from_str("Extension"),
            Variable::ExtensionWithDot => string_from_str("Extension with dot"),
            Variable::Parent => string_from_str("Parent"),
            Variable::ParentFileName => string_from_str("Parent file name"),
            Variable::LocalCounter => string_from_str("Local counter"),
            Variable::GlobalCounter => string_from_str("Global counter"),
            Variable::RegexCapture(index) => {
                let mut s = string_from_str("Regex capture (");
                push_decimal(&mut s, *index as u128);
                s.append(")");
                assert(s@ =~= self.display());
                s
            },
            Variable::Uuid => string_from_str("UUID"),
        }
    }
}

/// The parent of a path (`Path::parent`), or nothing when it has none.
pub open spec fn parent_text(path: Seq<char>) -> Seq<char> {
    match path_parent(path) {
        Some(p) => p,
        None => Seq::empty(),
    }
}

/// The input path made absolute: relative paths are joined to the current directory.
pub fn get_absolute_path(path: &str, current_dir: &str) -> (r: String)
    ensures
        r@ == join_path(current_dir@, path@),
{
    join(current_dir, path)
}

} // verus!
