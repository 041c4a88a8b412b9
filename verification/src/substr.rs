use vstd::prelude::*;
use crate::range::{RANGE_OF_LENGTH, RANGE_TO, Range, RangeType, RangeView, lemma_range_of_bounds, lemma_range_of_length, range_result, rules};
use crate::parse::{ErrorKindView, ErrorView, error_at};
use crate::reader::{Cursor, raw_chars};
use crate::filter::substr::{substring_backward, substring_forward};
use crate::text::{chars_of, decimal, push_decimal, string_from_chars};

verus! {

/// Ranges of character indices: one-based in a pattern, `A+L` allowed.
#[derive(PartialEq, Debug)]
pub struct CharIndexRangeType;

impl RangeType for CharIndexRangeType {
    type Value = usize;

    open spec fn index_spec() -> bool {
        true
    }

    open spec fn empty_allowed_spec() -> bool {
        false
    }

    open spec fn delimiter_required_spec() -> bool {
        false
    }

    open spec fn length_allowed_spec() -> bool {
        true
    }

    fn index() -> (b: bool) {
        true
    }

    fn empty_allowed() -> (b: bool) {
        false
    }

    fn delimiter_required() -> (b: bool) {
        false
    }

    fn length_allowed() -> (b: bool) {
        true
    }
}

/// A range of character indices.
pub type CharIndexRange = Range<CharIndexRangeType>;

impl CharIndexRange {
    /// The length of the range as a plain value, if it has an end.
    pub open spec fn length_spec(&self) -> Option<nat> {
        match self.1 {
            Some(e) => Some((e - self.0) as nat),
            None => None,
        }
    }

    /// The characters of `value` that the range selects.
    pub fn substr(&self, value: String) -> (s: String)
        requires
            self.1 matches Some(e) ==> self.0 <= e,
        ensures
            s@ == substring_forward(value@, self.0 as nat, self.length_spec()),
    {
        let chars = chars_of(value.as_str());
        let start = self.start();
        if start >= chars.len() {
            return String::new();
        }
        let mut end = chars.len();
        match self.length() {
            Some(length) => {
                if length < chars.len() - start {
                    end = start + length;
                }
            },
            None => {},
        }
        let s = string_from_chars(vstd::slice::slice_subrange(chars.as_slice(), start, end));
        proof {
            let rest = value@.skip(start as int);
            assert(s@ =~= substring_forward(value@, self.0 as nat, self.length_spec())) by {
                if end < chars.len() {
                    assert(s@ =~= rest.take(end - start));
                } else {
                    assert(s@ =~= rest);
                }
            }
        }
        s
    }

    /// The characters of `value` that the range selects when counted from the end.
    pub fn substr_rev(&self, value: String) -> (s: String)
        requires
            self.1 matches Some(e) ==> self.0 <= e,
        ensures
            s@ == substring_backward(value@, self.0 as nat, self.length_spec()),
    {
        let chars = chars_of(value.as_str());
        let start = self.start();
        if start > chars.len() {
            return String::new();
        }
        let end = chars.len() - start;
        let mut begin: usize = 0;
        match self.length() {
            Some(length) => {
                if length <= end {
                    begin = end - length;
                }
            },
            None => {},
        }
        let s = string_from_chars(vstd::slice::slice_subrange(chars.as_slice(), begin, end));
        proof {
            let kept = value@.take(end as int);
            assert(s@ =~= substring_backward(value@, self.0 as nat, self.length_spec())) by {
                if begin > 0 || (self.length_spec() matches Some(l) && l <= kept.len()) {
                    assert(s@ =~= kept.skip(begin as int));
                } else {
                    assert(s@ =~= kept);
                }
            }
        }
        s
    }

    /// How the range is shown: one-based `A..B` or `A..`.
    pub open spec fn display(&self) -> Seq<char> {
        match self.1 {
            Some(end) => decimal((self.0 + 1) as nat) + ".."@ + decimal(end as nat),
            None => decimal((self.0 + 1) as nat) + ".."@,
        }
    }

    /// How the range is shown.
    pub fn to_display_string(&self) -> (s: String)
        ensures
            s@ == self.display(),
    {
        let mut s = String::new();
        push_decimal(&mut s, self.0 as u128 + 1);
        s.append("..");
        match self.1 {
            Some(end) => push_decimal(&mut s, end as u128),
            None => {},
        }
        assert(s@ =~= self.display());
        s
    }
}

/// Parsing `A-B` (positive indices in decimal) as a range of character indices gives the
/// range from index `A - 1` up to `B` when `A <= B`, and otherwise the error that the start
/// is past the end, over the whole text; parsing `A+L` gives the range from `A - 1` of `L`
/// characters, without an end when that would pass the largest index.
pub proof fn lemma_char_index_range_texts(a: usize, b: usize, l: usize)
    requires
        a >= 1,
        b >= 1,
    ensures
        ({
            let r = Cursor { chars: raw_chars(decimal(a as nat) + seq![RANGE_TO] + decimal(b as nat)), index: 0 };
            range_result(r, rules::<CharIndexRangeType>()).0 == if a <= b {
                Ok::<RangeView, ErrorView>(RangeView { start: (a - 1) as nat, end: Some(b as nat) })
            } else {
                Err(error_at(ErrorKindView::RangeStartOverEnd(decimal(a as nat), decimal(b as nat)), 0, r.end_pos()))
            }
        }),
        ({
            let r = Cursor { chars: raw_chars(decimal(a as nat) + seq![RANGE_OF_LENGTH] + decimal(l as nat)), index: 0 };
            range_result(r, rules::<CharIndexRangeType>()).0 == Ok::<RangeView, ErrorView>(
                RangeView {
                    start: (a - 1) as nat,
                    end: if a - 1 + l <= usize::MAX {
                        Some((a - 1 + l) as nat)
                    } else {
                        None
                    },
                },
            )
        }),
{
    lemma_range_of_bounds(a as nat, b as nat, rules::<CharIndexRangeType>());
    lemma_range_of_length(a as nat, l as nat, rules::<CharIndexRangeType>());
}

} // verus!
