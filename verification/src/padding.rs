use vstd::prelude::*;
use crate::chars::{Chars, chars_values};
use crate::escape::{escaped_text, escape_str};
use crate::parse::{Error, ErrorKind, ErrorKindView, ErrorView, Result, error_at};
use crate::reader::{Cursor, Reader};
use crate::repetition::{Repetition, RepetitionView, repetition_result, repeat_text};
use crate::text::is_digit;

verus! {

/// What a value is padded with: a fixed text, or a text repeated a number of times.
#[derive(Debug, PartialEq)]
pub enum Padding {
    Fixed(String),
    Repeated(Repetition),
}

/// The mathematical content of a [`Padding`].
pub enum PaddingView {
    Fixed(Seq<char>),
    Repeated(RepetitionView),
}

impl View for Padding {
    type V = PaddingView;

    open spec fn view(&self) -> PaddingView {
        match self {
            Padding::Fixed(s) => PaddingView::Fixed(s@),
            Padding::Repeated(r) => PaddingView::Repeated(r@),
        }
    }
}

/// What parsing a padding from `r` gives, with the index of the reader afterwards:
/// `<prefix>TEXT` for a fixed text, or a repetition `N:TEXT`.
#[verifier::opaque]
pub open spec fn padding_result(r: Cursor, prefix: char) -> (std::result::Result<PaddingView, ErrorView>, int) {
    let i0 = r.index;
    if i0 >= r.chars.len() {
        (Err(error_at(ErrorKindView::PaddingPrefixInvalid(prefix, None), r.pos(), r.pos())), i0)
    } else {
        let c = r.chars[i0];
        if is_digit(c.value()) {
            match repetition_result(r) {
                (Ok(v), i) => (Ok(PaddingView::Repeated(v)), i),
                (Err(e), i) => (Err(e), i),
            }
        } else if c.value() == prefix {
            (Ok(PaddingView::Fixed(chars_values(r.chars.skip(i0 + 1)))), r.chars.len() as int)
        } else {
            (Err(error_at(ErrorKindView::PaddingPrefixInvalid(prefix, Some(c)), r.pos(), r.pos() + c.width())), i0)
        }
    }
}

impl Padding {
    /// Parses a padding; `fixed_prefix` introduces a fixed text.
    pub fn parse(reader: &mut Reader, fixed_prefix: char) -> (r: Result<Padding>)
        requires
            old(reader).wf(),
        ensures
            final(reader).wf(),
            final(reader).chars == old(reader).chars,
            crate::parse::error_within(r, old(reader).end_pos()),
            final(reader).index == padding_result(old(reader)@, fixed_prefix).1,
            crate::parse::result_view(r) == padding_result(old(reader)@, fixed_prefix).0,
    {
        reveal(padding_result);
        let position = reader.position();
        match reader.peek() {
            Some(prefix) => {
                let prefix = *prefix;
                let c = prefix.as_char();
                if '0' <= c && c <= '9' {
                    let repetition = Repetition::parse(reader)?;
                    Ok(Padding::Repeated(repetition))
                } else if c == fixed_prefix {
                    reader.seek();
                    let ghost r1 = *reader;
                    let rest = reader.read_to_end();
                    Ok(Padding::Fixed(Chars::from(rest.as_slice()).to_string()))
                } else {
                    proof {
                        crate::chars::lemma_chars_width_step(reader.chars@, reader.index as int);
                        crate::chars::lemma_chars_width_prefix(reader.chars@, reader.index + 1, reader.chars@.len() as int);
                        assert(reader.chars@.take(reader.chars@.len() as int) =~= reader.chars@);
                    }
                    let end = position + prefix.len_utf8();
                    Err(Error { kind: ErrorKind::PaddingPrefixInvalid(fixed_prefix, Some(prefix)), range: position..end })
                }
            },
            None => Err(Error { kind: ErrorKind::PaddingPrefixInvalid(fixed_prefix, None), range: position..position }),
        }
    }

    /// The full padding text.
    pub open spec fn expanded(&self) -> Seq<char> {
        match self {
            Padding::Fixed(s) => s@,
            Padding::Repeated(r) => repeat_text(r.value@, r.count as nat),
        }
    }

    /// The full padding text.
    pub fn expand(&self) -> (s: String)
        ensures
            s@ == self.expanded(),
    {
        match self {
            Padding::Fixed(s) => crate::text::string_from_str(s.as_str()),
            Padding::Repeated(r) => r.expand(),
        }
    }

    /// The value padded on the left (see [`crate::filter::format::left_pad`]).
    pub fn apply_left(&self, value: String) -> (s: String)
        ensures
            s@ == crate::filter::format::left_padded(value@, self.expanded()),
    {
        let padding = self.expand();
        match crate::filter::format::left_pad(value, padding.as_str()) {
            Ok(s) => s,
            Err(_) => String::new(),
        }
    }

    /// The value padded on the right (see [`crate::filter::format::right_pad`]).
    pub fn apply_right(&self, value: String) -> (s: String)
        ensures
            s@ == crate::filter::format::right_padded(value@, self.expanded()),
    {
        let padding = self.expand();
        match crate::filter::format::right_pad(value, padding.as_str()) {
            Ok(s) => s,
            Err(_) => String::new(),
        }
    }

    /// How the padding is shown: `'TEXT'` or `Nx 'TEXT'`.
    pub open spec fn display(&self) -> Seq<char> {
        match self {
            Padding::Fixed(s) => "'"@ + escaped_text(s@) + "'"@,
            Padding::Repeated(r) => r.display(),
        }
    }

    /// How the padding is shown.
    pub fn to_display_string(&self) -> (s: String)
        ensures
            s@ == self.display(),
    {
        match self {
            Padding::Fixed(value) => {
                let mut s = crate::text::string_from_str("'");
                s.append(escape_str(value.as_str()).as_str());
                s.append("'");
                s
            },
            Padding::Repeated(r) => r.to_display_string(),
        }
    }
}

} // verus!
