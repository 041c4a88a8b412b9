use vstd::prelude::*;
use crate::filter::generate::random_in;
use crate::range::{Range, RangeType};
use crate::text::{decimal, push_decimal};

verus! {

/// The numbers that a number range holds.
pub type Number = u64;

/// Ranges of numbers: `A-B` or `A-`, or nothing at all for every number.
#[derive(PartialEq, Debug)]
pub struct NumberRangeType;

impl RangeType for NumberRangeType {
    type Value = Number;

    open spec fn index_spec() -> bool {
        false
    }

    open spec fn empty_allowed_spec() -> bool {
        true
    }

    open spec fn delimiter_required_spec() -> bool {
        true
    }

    open spec fn length_allowed_spec() -> bool {
        false
    }

    fn index() -> (b: bool) {
        false
    }

    fn empty_allowed() -> (b: bool) {
        true
    }

    fn delimiter_required() -> (b: bool) {
        true
    }

    fn length_allowed() -> (b: bool) {
        false
    }
}

/// A range of numbers.
pub type NumberRange = Range<NumberRangeType>;

impl NumberRange {
    /// A random number of the range `A-B`: at least `A` and at most `B`, the last number
    /// (the range holds `B + 1` as its end); no end means up to the largest number. A range
    /// whose end equals its start, which parsing never makes, gives its start. The value
    /// depends on chance; the contract says where it lies.
    pub fn random(&self) -> (v: Number)
        requires
            self.1 matches Some(e) ==> self.0 <= e,
        ensures
            self.0 <= v,
            self.1 matches Some(e) ==> v < e || v == self.0,
    {
        let start = self.start();
        let last = match self.end() {
            Some(e) => if e > start {
                e - 1
            } else {
                start
            },
            None => Number::MAX,
        };
        random_in(start, last)
    }

    /// How the range is shown: `[A, B]` with the last number included, or `[A, 2^64)`.
    pub open spec fn display(&self) -> Seq<char> {
        match self.1 {
            Some(end) => "["@ + decimal(self.0 as nat) + ", "@ + decimal((end - 1) as nat) + "]"@,
            None => "["@ + decimal(self.0 as nat) + ", 2^64)"@,
        }
    }

    /// How the range is shown.
    pub fn to_display_string(&self) -> (s: String)
        requires
            self.1 matches Some(e) ==> e >= 1,
        ensures
            s@ == self.display(),
    {
        let mut s = crate::text::string_from_str("[");
        push_decimal(&mut s, self.0 as u128);
        match self.1 {
            Some(end) => {
                let last: u64 = end - 1;
                s.append(", ");
                push_decimal(&mut s, last as u128);
                s.append("]");
            },
            None => {
                s.append(", 2^64)");
            },
        }
        assert(s@ =~= self.display());
        s
    }
}

} // verus!
