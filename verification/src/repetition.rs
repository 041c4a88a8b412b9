use vstd::prelude::*;
use crate::chars::{Chars, chars_values};
use crate::escape::{escaped_text, escape_str};
use crate::integer::{digit_count, parse_integer, read_number_result};
use crate::parse::{Error, ErrorKind, ErrorKindView, ErrorView, Result, error_at};
use crate::reader::{Cursor, Reader};
use crate::text::{decimal, push_decimal};

verus! {

/// A text repeated a number of times.
#[derive(Debug, PartialEq)]
pub struct Repetition {
    pub count: usize,
    pub value: String,
}

/// The mathematical content of a [`Repetition`].
pub struct RepetitionView {
    pub count: usize,
    pub value: Seq<char>,
}

impl View for Repetition {
    type V = RepetitionView;

    open spec fn view(&self) -> RepetitionView {
        RepetitionView { count: self.count, value: self.value@ }
    }
}

/// `s` repeated `n` times.
pub open spec fn repeat_text(s: Seq<char>, n: nat) -> Seq<char>
    decreases n,
{
    if n == 0 {
        seq![]
    } else {
        repeat_text(s, (n - 1) as nat) + s
    }
}

/// What parsing a repetition `N:V` from `r` gives, with the index of the reader afterwards.
/// Any single character may stand between the count and the value.
#[verifier::opaque]
pub open spec fn repetition_result(r: Cursor) -> (std::result::Result<RepetitionView, ErrorView>, int) {
    let i0 = r.index;
    if i0 >= r.chars.len() {
        (Err(error_at(ErrorKindView::ExpectedRepetition, r.pos(), r.pos())), i0)
    } else {
        let i1 = i0 + digit_count(r.rest());
        match read_number_result(r, usize::MAX as nat) {
            Err(e) => (Err(e), i1),
            Ok(count) => if i1 < r.chars.len() {
                (
                    Ok(RepetitionView { count: count as usize, value: chars_values(r.chars.skip(i1 + 1)) }),
                    r.chars.len() as int,
                )
            } else {
                (Err(error_at(ErrorKindView::RepetitionWithoutDelimiter, r.pos_at(i1), r.end_pos())), i1)
            },
        }
    }
}

impl Repetition {
    /// Parses a repetition `N:V`.
    pub fn parse(reader: &mut Reader) -> (r: Result<Repetition>)
        requires
            old(reader).wf(),
        ensures
            final(reader).wf(),
            final(reader).chars == old(reader).chars,
            crate::parse::error_within(r, old(reader).end_pos()),
            final(reader).index == repetition_result(old(reader)@).1,
            crate::parse::result_view(r) == repetition_result(old(reader)@).0,
    {
        reveal(repetition_result);
        if reader.peek().is_none() {
            return Err(Error { kind: ErrorKind::ExpectedRepetition, range: reader.position()..reader.position() });
        }
        let count = parse_integer(reader)?;
        let ghost r1 = *reader;
        if reader.read().is_some() {
            let ghost r2 = *reader;
            let rest = reader.read_to_end();
            let value = Chars::from(rest.as_slice()).to_string();
            assert(r2.rest() =~= r2.chars@.skip(r1.index + 1));
            Ok(Repetition { count, value })
        } else {
            Err(Error { kind: ErrorKind::RepetitionWithoutDelimiter, range: reader.position()..reader.end() })
        }
    }

    /// Parses a repetition `N:V`, where the delimiter after the count is required.
    pub fn parse_with_delimiter(reader: &mut Reader) -> (r: Result<Repetition>)
        requires
            old(reader).wf(),
        ensures
            final(reader).wf(),
            final(reader).chars == old(reader).chars,
            crate::parse::error_within(r, old(reader).end_pos()),
            final(reader).index == repetition_result(old(reader)@).1,
            crate::parse::result_view(r) == repetition_result(old(reader)@).0,
    {
        Repetition::parse(reader)
    }

    /// The value repeated `count` times.
    pub fn expand(&self) -> (s: String)
        ensures
            s@ == repeat_text(self.value@, self.count as nat),
    {
        crate::filter::generate::repeated(self.value.as_str(), self.count)
    }

    /// How the repetition is shown: `Nx 'V'`.
    pub open spec fn display(&self) -> Seq<char> {
        decimal(self.count as nat) + "x '"@ + escaped_text(self.value@) + "'"@
    }

    /// How the repetition is shown.
    pub fn to_display_string(&self) -> (s: String)
        ensures
            s@ == self.display(),
    {
        let mut s = String::new();
        push_decimal(&mut s, self.count as u128);
        s.append("x '");
        s.append(escape_str(self.value.as_str()).as_str());
        s.append("'");
        assert(s@ =~= self.display());
        s
    }
}

} // verus!
