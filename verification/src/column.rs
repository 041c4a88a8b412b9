use vstd::prelude::*;
use crate::field::{indexed_separator_result, parse_indexed_separator};
use crate::parse::{ErrorKind, ErrorKindView, Result, Separator, SeparatorView, separator_display};
use crate::reader::Reader;
use crate::split::{lemma_part_backward, part_at, separator_parts, separator_parts_backward};
use crate::text::{decimal, push_decimal, string_from_str};

verus! {

/// A column of a value: the part with a given index between occurrences of a separator.
#[derive(Debug)]
pub struct Column {
    pub index: usize,
    pub separator: Separator,
}

/// The mathematical content of a [`Column`].
pub struct ColumnView {
    pub index: usize,
    pub separator: SeparatorView,
}

impl View for Column {
    type V = ColumnView;

    open spec fn view(&self) -> ColumnView {
        ColumnView { index: self.index, separator: self.separator@ }
    }
}

impl PartialEq for Column {
    fn eq(&self, other: &Self) -> (r: bool) {
        self.index == other.index && self.separator == other.separator
    }
}

impl vstd::std_specs::cmp::PartialEqSpecImpl for Column {
    open spec fn obeys_eq_spec() -> bool {
        true
    }

    open spec fn eq_spec(&self, other: &Self) -> bool {
        self@ == other@
    }
}

impl Column {
    /// Parses `N`, `N:TEXT` or `N/REGEX`; without a separator, `default_separator` is used.
    pub fn parse(reader: &mut Reader, default_separator: &Separator) -> (r: Result<Column>)
        requires
            old(reader).wf(),
        ensures
            final(reader).wf(),
            final(reader).chars == old(reader).chars,
            crate::parse::error_within(r, old(reader).end_pos()),
            final(reader).index == indexed_separator_result(
                old(reader)@,
                default_separator@,
                ErrorKindView::ExpectedColumnSeparator,
            ).1,
            match (
                r,
                indexed_separator_result(old(reader)@, default_separator@, ErrorKindView::ExpectedColumnSeparator).0,
            ) {
                (Ok(c), Ok((i, s))) => c.index == i && c.separator@ == s,
                (Err(e), Err(f)) => e@ == f,
                _ => false,
            },
    {
        let (index, separator) = parse_indexed_separator(reader, default_separator, ErrorKind::ExpectedColumnSeparator)?;
        Ok(Column { index, separator })
    }

    /// The column of `value`: its part with the column's index, or an empty string.
    pub fn get(&self, value: &str) -> (s: String)
        ensures
            s@ == part_at(separator_parts(self.separator@, value@), self.index as int),
    {
        self.separator.part(value, self.index)
    }

    /// The column of `value` counted from the last part, or an empty string.
    pub fn get_backward(&self, value: &str) -> (s: String)
        ensures
            s@ == part_at(separator_parts_backward(self.separator@, value@), self.index as int),
    {
        self.separator.part_backward(value, self.index)
    }

    /// How the column is shown: `column #N (SEPARATOR separator)`, with a one-based `N`.
    pub open spec fn display(&self) -> Seq<char> {
        "column #"@ + decimal((self.index + 1) as nat) + " ("@ + separator_display(self.separator@)
            + " separator)"@
    }

    /// How the column is shown.
    pub fn to_display_string(&self) -> (s: String)
        ensures
            s@ == self.display(),
    {
        let mut s = string_from_str("column #");
        push_decimal(&mut s, self.index as u128 + 1);
        s.append(" (");
        s.append(self.separator.to_display_string().as_str());
        s.append(" separator)");
        assert(s@ =~= self.display());
        s
    }
}

/// With a regex separator, or a text separator of at most one character, the column of a
/// value counted from the last is the column counted from the first at the mirrored index
/// (`parts - 1 - index`), and empty when there are not that many parts.
pub proof fn lemma_column_get_backward(column: ColumnView, value: Seq<char>)
    requires
        column.separator matches SeparatorView::Text(t) ==> t.len() <= 1,
    ensures
        ({
            let n = separator_parts(column.separator, value).len();
            part_at(separator_parts_backward(column.separator, value), column.index as int) == if column.index < n {
                part_at(separator_parts(column.separator, value), n - 1 - column.index)
            } else {
                Seq::empty()
            }
        }),
{
    lemma_part_backward(column.separator, value, column.index as int);
}

} // verus!
