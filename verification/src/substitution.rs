use vstd::prelude::*;
use crate::chars::{Char, Chars, chars_values, chars_width, lemma_chars_width_concat};
use crate::escape::{escaped_text, escape_str};
use crate::parse::{AnyString, Error, ErrorKind, ErrorKindView, ErrorView, Result, error_at};
use crate::reader::{Cursor, Reader, first_with_value, lemma_first_with_value_props};
use crate::regexp::{RegexHolder, regex_valid};

verus! {

/// A value to look for and what to put in its place.
#[derive(Debug, PartialEq)]
pub struct Substitution<T> {
    pub target: T,
    pub replacement: String,
}

/// The mathematical content of a [`Substitution`].
pub struct SubstitutionView<V> {
    pub target: V,
    pub replacement: Seq<char>,
}

impl<T: View> View for Substitution<T> {
    type V = SubstitutionView<T::V>;

    open spec fn view(&self) -> SubstitutionView<T::V> {
        SubstitutionView { target: self.target@, replacement: self.replacement@ }
    }
}

/// The target of a substitution that applies to empty values only.
#[derive(Debug, PartialEq, Clone, Copy)]
pub struct Empty;

impl View for Empty {
    type V = ();

    open spec fn view(&self) -> () {
        ()
    }
}

/// Where the target of a substitution ends: the index of the reader after the target
/// (and after the second delimiter, if there is one), and the target itself.
pub open spec fn split_target(r: Cursor) -> (int, Seq<Char>) {
    let i0 = r.index;
    let d = r.chars[i0];
    let after = r.chars.skip(i0 + 1);
    match first_with_value(after, d.value()) {
        Some(k) => (i0 + 1 + k + 1, after.take(k)),
        None => (r.chars.len() as int, after),
    }
}

/// What parsing a substitution `/A/B` from `r` gives, with the index of the reader
/// afterwards. The first character is the delimiter; the target runs up to the next
/// delimiter (or the end), the replacement is everything after it. When `regex` holds,
/// the target must be a valid regular expression.
#[verifier::opaque]
pub open spec fn substitution_result(r: Cursor, regex: bool) -> (std::result::Result<SubstitutionView<Seq<char>>, ErrorView>, int) {
    let i0 = r.index;
    if i0 >= r.chars.len() {
        (Err(error_at(ErrorKindView::ExpectedSubstitution, r.pos(), r.end_pos())), i0)
    } else {
        let (i1, target) = split_target(r);
        let start = r.pos_at(i0 + 1);
        let end = start + chars_width(target);
        if target.len() == 0 {
            (Err(error_at(ErrorKindView::SubstitutionWithoutTarget(r.chars[i0]), start, end)), i1)
        } else if regex && !regex_valid(chars_values(target)) {
            (Err(error_at(ErrorKindView::RegexInvalid, start, end)), i1)
        } else {
            (
                Ok(SubstitutionView { target: chars_values(target), replacement: chars_values(r.chars.skip(i1)) }),
                r.chars.len() as int,
            )
        }
    }
}

/// Reads the delimiter and the target; gives the delimiter, the target and its byte range.
fn read_target(reader: &mut Reader) -> (r: Result<(Char, Vec<Char>, usize, usize)>)
    requires
        old(reader).wf(),
    ensures
        final(reader).wf(),
        final(reader).chars == old(reader).chars,
        crate::parse::error_within(r, old(reader).end_pos()),
        match r {
            Err(e) => old(reader).index >= old(reader).chars@.len() && final(reader).index == old(reader).index
                && e@ == error_at(ErrorKindView::ExpectedSubstitution, old(reader).pos(), old(reader).end_pos()),
            Ok((d, target, start, end)) => old(reader).index < old(reader).chars@.len() && {
                let (i1, t) = split_target(old(reader)@);
                &&& d == old(reader).chars@[old(reader).index as int]
                &&& target@ == t
                &&& final(reader).index == i1
                &&& start == old(reader).pos_at(old(reader).index + 1)
                &&& end == start + chars_width(t)
                &&& end <= old(reader).end_pos()
            },
        },
{
    let ghost r0 = *reader;
    match reader.read() {
        None => Err(Error { kind: ErrorKind::ExpectedSubstitution, range: reader.position()..reader.end() }),
        Some(delimiter) => {
            let start = reader.position();
            let ghost r1 = *reader;
            let target = reader.read_until(&delimiter);
            proof {
                let after = r1.rest();
                assert(after == r0.chars@.skip(r0.index + 1));
                lemma_first_with_value_props(after, delimiter.value());
                let k = target@.len();
                assert(r0.chars@.take(r1.index + k) =~= r0.chars@.take(r1.index as int) + target@);
                lemma_chars_width_concat(r0.chars@.take(r1.index as int), target@);
                crate::chars::lemma_chars_width_prefix(r0.chars@, r1.index + k, r0.chars@.len() as int);
                assert(r0.chars@.take(r0.chars@.len() as int) =~= r0.chars@);
            }
            let end = start + Chars::from(target.as_slice()).len_utf8();
            Ok((delimiter, target, start, end))
        },
    }
}

/// A substitution of the empty value.
pub type EmptySubstitution = Substitution<Empty>;

/// A substitution of plain text.
pub type StringSubstitution = Substitution<String>;

/// A substitution of what a regular expression matches.
pub type RegexSubstitution = Substitution<RegexHolder>;

impl Substitution<String> {
    /// Parses a substitution of plain text.
    pub fn parse_string(reader: &mut Reader) -> (r: Result<Substitution<String>>)
        requires
            old(reader).wf(),
        ensures
            final(reader).wf(),
            final(reader).chars == old(reader).chars,
            crate::parse::error_within(r, old(reader).end_pos()),
            final(reader).index == substitution_result(old(reader)@, false).1,
            crate::parse::result_view(r) == substitution_result(old(reader)@, false).0,
    {
        reveal(substitution_result);
        let (delimiter, target, start, end) = read_target(reader)?;
        if target.len() == 0 {
            return Err(Error { kind: ErrorKind::SubstitutionWithoutTarget(delimiter), range: start..end });
        }
        let target = Chars::from(target.as_slice()).to_string();
        let ghost r1 = *reader;
        let replacement = Chars::from(reader.read_to_end().as_slice()).to_string();
        Ok(Substitution { target, replacement })
    }

    /// Parses a substitution of plain text (the same as [`Substitution::parse_string`]).
    pub fn parse(reader: &mut Reader) -> (r: Result<Substitution<String>>)
        requires
            old(reader).wf(),
        ensures
            final(reader).wf(),
            final(reader).chars == old(reader).chars,
            crate::parse::error_within(r, old(reader).end_pos()),
            final(reader).index == substitution_result(old(reader)@, false).1,
            crate::parse::result_view(r) == substitution_result(old(reader)@, false).0,
    {
        Substitution::<String>::parse_string(reader)
    }

    /// The value with the first occurrence of the target replaced.
    pub fn replace_first(&self, value: &str) -> (s: String)
        ensures
            s@ == crate::filter::string::replace_first_text(value@, self.target@, self.replacement@),
    {
        match crate::filter::string::replace_first(crate::text::string_from_str(value), self.target.as_str(), self.replacement.as_str()) {
            Ok(s) => s,
            Err(_) => String::new(),
        }
    }

    /// The value with every occurrence of the target replaced.
    pub fn replace_all(&self, value: &str) -> (s: String)
        ensures
            s@ == crate::filter::string::replace_all_text(value@, self.target@, self.replacement@),
    {
        match crate::filter::string::replace_all(crate::text::string_from_str(value), self.target.as_str(), self.replacement.as_str()) {
            Ok(s) => s,
            Err(_) => String::new(),
        }
    }

    /// How the substitution is shown: `'A' with 'B'`.
    pub open spec fn display(&self) -> Seq<char> {
        "'"@ + escaped_text(self.target@) + "' with '"@ + escaped_text(self.replacement@) + "'"@
    }

    /// How the substitution is shown.
    pub fn to_display_string(&self) -> (s: String)
        ensures
            s@ == self.display(),
    {
        let mut s = crate::text::string_from_str("'");
        s.append(escape_str(self.target.as_str()).as_str());
        s.append("' with '");
        s.append(escape_str(self.replacement.as_str()).as_str());
        s.append("'");
        s
    }
}

impl Substitution<RegexHolder> {
    /// Parses a substitution whose target is a regular expression.
    pub fn parse_regex(reader: &mut Reader) -> (r: Result<Substitution<RegexHolder>>)
        requires
            old(reader).wf(),
        ensures
            final(reader).wf(),
            final(reader).chars == old(reader).chars,
            crate::parse::error_within(r, old(reader).end_pos()),
            final(reader).index == substitution_result(old(reader)@, true).1,
            crate::parse::result_view(r) == substitution_result(old(reader)@, true).0,
    {
        reveal(substitution_result);
        let (delimiter, target, start, end) = read_target(reader)?;
        if target.len() == 0 {
            return Err(Error { kind: ErrorKind::SubstitutionWithoutTarget(delimiter), range: start..end });
        }
        let text = Chars::from(target.as_slice()).to_string();
        match RegexHolder::compile(text.as_str()) {
            Ok(holder) => {
                let replacement = Chars::from(reader.read_to_end().as_slice()).to_string();
                Ok(Substitution { target: holder, replacement })
            },
            Err(message) => Err(Error { kind: ErrorKind::RegexInvalid(AnyString(message)), range: start..end }),
        }
    }

    /// Parses a substitution whose target is a regular expression (the same as
    /// [`Substitution::parse_regex`]).
    pub fn parse(reader: &mut Reader) -> (r: Result<Substitution<RegexHolder>>)
        requires
            old(reader).wf(),
        ensures
            final(reader).wf(),
            final(reader).chars == old(reader).chars,
            crate::parse::error_within(r, old(reader).end_pos()),
            final(reader).index == substitution_result(old(reader)@, true).1,
            crate::parse::result_view(r) == substitution_result(old(reader)@, true).0,
    {
        Substitution::<RegexHolder>::parse_regex(reader)
    }

    /// The value with the first match replaced (`$N` refers to capture group `N`).
    pub fn replace_first(&self, value: &str) -> (s: String)
        ensures
            s@ == crate::regexp::regex_replace_first(self.target@, value@, crate::regexp::bracketed(self.replacement@)),
    {
        let replacement = crate::regexp::add_capture_group_brackets(self.replacement.as_str());
        self.target.replace_first(value, replacement.as_str())
    }

    /// The value with every match replaced (`$N` refers to capture group `N`).
    pub fn replace_all(&self, value: &str) -> (s: String)
        ensures
            s@ == crate::regexp::regex_replace_all(self.target@, value@, crate::regexp::bracketed(self.replacement@)),
    {
        let replacement = crate::regexp::add_capture_group_brackets(self.replacement.as_str());
        self.target.replace_all(value, replacement.as_str())
    }

    /// How the substitution is shown: `'A' with 'B'` (the expression as written).
    pub open spec fn display(&self) -> Seq<char> {
        "'"@ + self.target@ + "' with '"@ + escaped_text(self.replacement@) + "'"@
    }

    /// How the substitution is shown.
    pub fn to_display_string(&self) -> (s: String)
        ensures
            s@ == self.display(),
    {
        let mut s = crate::text::string_from_str("'");
        s.append(self.target.as_str());
        s.append("' with '");
        s.append(escape_str(self.replacement.as_str()).as_str());
        s.append("'");
        s
    }
}

impl Substitution<Empty> {
    /// Parses the replacement of empty values: everything up to the end.
    pub fn parse(reader: &mut Reader) -> (r: Result<Substitution<Empty>>)
        requires
            old(reader).wf(),
        ensures
            final(reader).wf(),
            final(reader).chars == old(reader).chars,
            final(reader).index == old(reader).chars@.len(),
            r matches Ok(s) && s.replacement@ == chars_values(old(reader).rest()),
    {
        let replacement = Chars::from(reader.read_to_end().as_slice()).to_string();
        Ok(Substitution { target: Empty, replacement })
    }

    /// The replacement when the value is empty, the value otherwise.
    pub fn replace(&self, value: String) -> (s: String)
        ensures
            s@ == if value@.len() == 0 {
                self.replacement@
            } else {
                value@
            },
    {
        match crate::filter::string::replace_empty(value, self.replacement.as_str()) {
            Ok(s) => s,
            Err(_) => String::new(),
        }
    }

    /// How the substitution is shown: `empty with 'B'`.
    pub open spec fn display(&self) -> Seq<char> {
        "empty with '"@ + escaped_text(self.replacement@) + "'"@
    }

    /// How the substitution is shown.
    pub fn to_display_string(&self) -> (s: String)
        ensures
            s@ == self.display(),
    {
        let mut s = crate::text::string_from_str("empty with '");
        s.append(escape_str(self.replacement.as_str()).as_str());
        s.append("'");
        s
    }
}

} // verus!
