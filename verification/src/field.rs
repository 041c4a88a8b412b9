use vstd::prelude::*;
use crate::chars::{Chars, chars_values};
use crate::index::{index_result, parse_index};
use crate::integer::digit_count;
use crate::parse::{
    Error, ErrorKind, ErrorKindView, ErrorView, Result, Separator, SeparatorView, error_at,
    separator_display,
};
use crate::reader::{Cursor, Reader};
use crate::regexp::{RegexHolder, regex_valid};
use crate::split::{part_at, separator_parts, separator_parts_backward};
use crate::text::{decimal, push_decimal, string_from_str};

verus! {

/// What reading `N`, `N:TEXT` or `N/REGEX` from `r` gives: the zero-based index and the
/// separator (`default` when none follows the number), with the index of the reader
/// afterwards. An empty separator is the error `missing`.
pub open spec fn indexed_separator_result(r: Cursor, default: SeparatorView, missing: ErrorKindView)
    -> (std::result::Result<(nat, SeparatorView), ErrorView>, int)
{
    let i1 = r.index + digit_count(r.rest());
    match index_result(r) {
        Err(e) => (Err(e), i1),
        Ok(index) => if i1 < r.chars.len() {
            let text = chars_values(r.chars.skip(i1 + 1));
            let start = r.pos_at(i1 + 1);
            let end = r.end_pos();
            (
                if text.len() == 0 {
                    Err(error_at(missing, start, end))
                } else if r.chars[i1].value() == '/' {
                    if regex_valid(text) {
                        Ok((index, SeparatorView::Pattern(text)))
                    } else {
                        Err(error_at(ErrorKindView::RegexInvalid, start, end))
                    }
                } else {
                    Ok((index, SeparatorView::Text(text)))
                },
                r.chars.len() as int,
            )
        } else {
            (Ok((index, default)), i1)
        },
    }
}

/// Reads `N`, `N:TEXT` or `N/REGEX`: a one-based index, then optionally a delimiter and a
/// separator (after `/` a regular expression, after any other character a text).
pub fn parse_indexed_separator(reader: &mut Reader, default: &Separator, missing: ErrorKind) -> (r: Result<(usize, Separator)>)
    requires
        old(reader).wf(),
    ensures
        final(reader).wf(),
        final(reader).chars == old(reader).chars,
        crate::parse::error_within(r, old(reader).end_pos()),
        final(reader).index == indexed_separator_result(old(reader)@, default@, missing@).1,
        match (r, indexed_separator_result(old(reader)@, default@, missing@).0) {
            (Ok((i, s)), Ok((j, t))) => i == j && s@ == t,
            (Err(e), Err(f)) => e@ == f,
            _ => false,
        },
{
    let ghost r0 = old(reader)@;
    let index = parse_index(reader)?;
    let ghost r1 = *reader;
    match reader.read_char() {
        Some(delimiter) => {
            let start = reader.position();
            let rest = reader.read_to_end();
            let text = Chars::from(rest.as_slice()).to_string();
            let end = reader.position();
            proof {
                assert(reader.chars@.take(reader.index as int) =~= reader.chars@);
                assert(r1.chars@.skip(r1.index + 1) =~= rest@);
            }
            if rest.len() == 0 {
                return Err(Error { kind: missing, range: start..end });
            }
            if delimiter == '/' {
                match RegexHolder::try_from(text) {
                    Ok(regex) => Ok((index, Separator::Regex(regex))),
                    Err(kind) => Err(Error { kind, range: start..end }),
                }
            } else {
                Ok((index, Separator::String(text)))
            }
        },
        None => Ok((index, default.duplicate())),
    }
}

/// A field of a value: the part with a given index between occurrences of a separator.
#[derive(Debug)]
pub struct Field {
    pub index: usize,
    pub separator: Separator,
}

/// The mathematical content of a [`Field`].
pub struct FieldView {
    pub index: usize,
    pub separator: SeparatorView,
}

impl View for Field {
    type V = FieldView;

    open spec fn view(&self) -> FieldView {
        FieldView { index: self.index, separator: self.separator@ }
    }
}

impl PartialEq for Field {
    fn eq(&self, other: &Self) -> (r: bool) {
        self.index == other.index && self.separator == other.separator
    }
}

impl vstd::std_specs::cmp::PartialEqSpecImpl for Field {
    open spec fn obeys_eq_spec() -> bool {
        true
    }

    open spec fn eq_spec(&self, other: &Self) -> bool {
        self@ == other@
    }
}

impl Field {
    /// Parses `N`, `N:TEXT` or `N/REGEX`; without a separator, `default_separator` is used.
    pub fn parse(reader: &mut Reader, default_separator: &Separator) -> (r: Result<Field>)
        requires
            old(reader).wf(),
        ensures
            final(reader).wf(),
            final(reader).chars == old(reader).chars,
            crate::parse::error_within(r, old(reader).end_pos()),
            final(reader).index == indexed_separator_result(
                old(reader)@,
                default_separator@,
                ErrorKindView::ExpectedFieldSeparator,
            ).1,
            match (
                r,
                indexed_separator_result(old(reader)@, default_separator@, ErrorKindView::ExpectedFieldSeparator).0,
            ) {
                (Ok(f), Ok((i, s))) => f.index == i && f.separator@ == s,
                (Err(e), Err(f)) => e@ == f,
                _ => false,
            },
    {
        let (index, separator) = parse_indexed_separator(reader, default_separator, ErrorKind::ExpectedFieldSeparator)?;
        Ok(Field { index, separator })
    }

    /// The field of `value`: its part with the field's index, or an empty string.
    pub fn get(&self, value: &str) -> (s: String)
        ensures
            s@ == part_at(separator_parts(self.separator@, value@), self.index as int),
    {
        self.separator.part(value, self.index)
    }

    /// The field of `value` counted from the last part, or an empty string.
    pub fn get_rev(&self, value: &str) -> (s: String)
        ensures
            s@ == part_at(separator_parts_backward(self.separator@, value@), self.index as int),
    {
        self.separator.part_backward(value, self.index)
    }

    /// How the field is shown: `field #N (SEPARATOR separator)`, with a one-based `N`.
    pub open spec fn display(&self) -> Seq<char> {
        "field #"@ + decimal((self.index + 1) as nat) + " ("@ + separator_display(self.separator@)
            + " separator)"@
    }

    /// How the field is shown.
    pub fn to_display_string(&self) -> (s: String)
        ensures
            s@ == self.display(),
    {
        let mut s = string_from_str("field #");
        push_decimal(&mut s, self.index as u128 + 1);
        s.append(" (");
        s.append(self.separator.to_display_string().as_str());
        s.append(" separator)");
        assert(s@ =~= self.display());
        s
    }
}

} // verus!
