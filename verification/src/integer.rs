use vstd::prelude::*;
use crate::chars::{Char, chars_values};
use crate::parse::{Error, ErrorKind, ErrorKindView, ErrorView, Result, error_at};
use crate::reader::{Cursor, Reader};
use crate::text::{decimal, digits_value, is_digit};

verus! {

/// Number of decimal digits at the start of `s`.
pub open spec fn digit_count(s: Seq<Char>) -> nat
    decreases s.len(),
{
    if s.len() > 0 && is_digit(s[0].value()) {
        1 + digit_count(s.drop_first())
    } else {
        0
    }
}

/// The value of the decimal digits at the start of `s`.
pub open spec fn leading_number(s: Seq<Char>) -> nat {
    digits_value(chars_values(s.take(digit_count(s) as int)))
}

/// What reading an unsigned number no greater than `max` from `r` gives:
/// an error when there is no digit or the number is too big.
pub open spec fn read_number_result(r: Cursor, max: nat) -> std::result::Result<nat, ErrorView> {
    let rest = r.rest();
    let count = digit_count(rest);
    if count == 0 {
        Err(error_at(ErrorKindView::ExpectedNumber, r.pos(), r.end_pos()))
    } else if leading_number(rest) > max {
        Err(error_at(ErrorKindView::IntegerOverflow(decimal(max)), r.pos(), r.pos_at(r.index + count)))
    } else {
        Ok(leading_number(rest))
    }
}

/// The digit count splits into a first digit and the rest.
pub proof fn lemma_digit_count_props(s: Seq<Char>)
    ensures
        digit_count(s) <= s.len(),
        forall|j: int| 0 <= j < digit_count(s) ==> #[trigger] is_digit(s[j].value()),
        digit_count(s) < s.len() ==> !is_digit(s[digit_count(s) as int].value()),
    decreases s.len(),
{
    if s.len() > 0 && is_digit(s[0].value()) {
        lemma_digit_count_props(s.drop_first());
        assert forall|j: int| 0 <= j < digit_count(s) implies #[trigger] is_digit(s[j].value()) by {
            if j > 0 {
                assert(s[j] == s.drop_first()[j - 1]);
            }
        }
        if digit_count(s) < s.len() {
            assert(s[digit_count(s) as int] == s.drop_first()[digit_count(s.drop_first()) as int]);
        }
    }
}

/// A run of digits followed by a non-digit (or the end) has exactly that many leading digits.
pub proof fn lemma_digit_count_exact(s: Seq<Char>, k: int)
    requires
        0 <= k <= s.len(),
        forall|j: int| 0 <= j < k ==> #[trigger] is_digit(s[j].value()),
        k < s.len() ==> !is_digit(s[k].value()),
    ensures
        digit_count(s) == k,
    decreases k,
{
    if k > 0 {
        assert forall|j: int| 0 <= j < k - 1 implies #[trigger] is_digit(s.drop_first()[j].value()) by {
            assert(s.drop_first()[j] == s[j + 1]);
        }
        if k - 1 < s.drop_first().len() {
            assert(s.drop_first()[k - 1] == s[k]);
        }
        lemma_digit_count_exact(s.drop_first(), k - 1);
    }
}

/// Adding a digit multiplies the value by ten and adds the digit.
pub proof fn lemma_digits_value_push(s: Seq<Char>, c: Char)
    requires
        is_digit(c.value()),
    ensures
        digits_value(chars_values(s.push(c))) == digits_value(chars_values(s)) * 10 + (c.value() as u32
            - '0' as u32),
{
    assert(chars_values(s.push(c)) =~= chars_values(s).push(c.value()));
    assert(chars_values(s.push(c)).drop_last() =~= chars_values(s));
}

/// Reads an unsigned decimal number no greater than `max`.
fn read_number(reader: &mut Reader, max: u64) -> (r: Result<u64>)
    requires
        old(reader).wf(),
    ensures
        final(reader).wf(),
        final(reader).chars == old(reader).chars,
        crate::parse::error_within(r, old(reader).end_pos()),
        final(reader).index == old(reader).index + digit_count(old(reader).rest()),
        match (r, read_number_result(old(reader)@, max as nat)) {
            (Ok(v), Ok(w)) => v == w,
            (Err(e), Err(f)) => e@ == f,
            _ => false,
        },
{
    let position = reader.position();
    let start_index = reader.index;
    let ghost start = reader.index;
    let ghost rest = reader.rest();
    let mut value: u64 = 0;
    let mut overflow = false;
    proof {
        lemma_digit_count_props(rest);
        assert(chars_values(rest.take(0)) =~= Seq::<char>::empty());
    }
    loop
        invariant
            reader.wf(),
            reader.chars == old(reader).chars,
            rest == old(reader).rest(),
            start == old(reader).index,
            start <= reader.index <= reader.chars@.len(),
            forall|j: int| start <= j < reader.index ==> #[trigger] is_digit(reader.chars@[j].value()),
            !overflow ==> value == digits_value(chars_values(rest.take(reader.index - start))) && value <= max,
            overflow ==> digits_value(chars_values(rest.take(reader.index - start))) > max,
        ensures
            reader.wf(),
            reader.chars == old(reader).chars,
            start <= reader.index <= reader.chars@.len(),
            forall|j: int| start <= j < reader.index ==> #[trigger] is_digit(reader.chars@[j].value()),
            reader.index < reader.chars@.len() ==> !is_digit(reader.chars@[reader.index as int].value()),
            !overflow ==> value == digits_value(chars_values(rest.take(reader.index - start))) && value <= max,
            overflow ==> digits_value(chars_values(rest.take(reader.index - start))) > max,
        decreases reader.chars@.len() - reader.index,
    {
        let c = match reader.peek_char() {
            Some(c) => c,
            None => break,
        };
        if !('0' <= c && c <= '9') {
            break;
        }
        let digit = (c as u32 - '0' as u32) as u64;
        let ghost n = reader.index - start;
        proof {
            assert(rest.take(n + 1) =~= rest.take(n).push(rest[n]));
            assert(rest[n] == reader.chars@[reader.index as int]);
            lemma_digits_value_push(rest.take(n), rest[n]);
        }
        if !overflow {
            match value.checked_mul(10) {
                Some(tens) => match tens.checked_add(digit) {
                    Some(next) => {
                        if next <= max {
                            value = next;
                        } else {
                            overflow = true;
                        }
                    },
                    None => {
                        overflow = true;
                    },
                },
                None => {
                    overflow = true;
                    assert(digits_value(chars_values(rest.take(n + 1))) >= value * 10);
                },
            }
        } else {
            assert(digits_value(chars_values(rest.take(n + 1))) >= digits_value(chars_values(rest.take(n))) * 10);
            assert(digits_value(chars_values(rest.take(n))) * 10 >= digits_value(chars_values(rest.take(n)))) by (nonlinear_arith)
                requires digits_value(chars_values(rest.take(n))) >= 0;
        }
        reader.seek();
    }
    let ghost count = reader.index - start;
    proof {
        assert forall|j: int| 0 <= j < count implies #[trigger] is_digit(rest[j].value()) by {
            assert(rest[j] == reader.chars@[start + j]);
        }
        if count < rest.len() {
            assert(rest[count] == reader.chars@[reader.index as int]);
        }
        lemma_digit_count_exact(rest, count);
    }
    if reader.index == start_index {
        Err(Error { kind: ErrorKind::ExpectedNumber, range: position..reader.end() })
    } else if overflow {
        Err(
            Error {
                kind: ErrorKind::IntegerOverflow(crate::text::decimal_string(max as u128)),
                range: position..reader.position(),
            },
        )
    } else {
        Ok(value)
    }
}

/// Reads an unsigned decimal index or count (a `usize`).
pub fn parse_integer(reader: &mut Reader) -> (r: Result<usize>)
    requires
        old(reader).wf(),
    ensures
        final(reader).wf(),
        final(reader).chars == old(reader).chars,
        crate::parse::error_within(r, old(reader).end_pos()),
        final(reader).index == old(reader).index + digit_count(old(reader).rest()),
        match (r, read_number_result(old(reader)@, usize::MAX as nat)) {
            (Ok(v), Ok(w)) => v == w,
            (Err(e), Err(f)) => e@ == f,
            _ => false,
        },
{
    match read_number(reader, usize::MAX as u64) {
        Ok(v) => Ok(v as usize),
        Err(e) => Err(e),
    }
}

/// Reads an unsigned decimal number (a `u64`).
pub fn parse_number(reader: &mut Reader) -> (r: Result<u64>)
    requires
        old(reader).wf(),
    ensures
        final(reader).wf(),
        final(reader).chars == old(reader).chars,
        crate::parse::error_within(r, old(reader).end_pos()),
        final(reader).index == old(reader).index + digit_count(old(reader).rest()),
        match (r, read_number_result(old(reader)@, u64::MAX as nat)) {
            (Ok(v), Ok(w)) => v == w,
            (Err(e), Err(f)) => e@ == f,
            _ => false,
        },
{
    read_number(reader, u64::MAX)
}

/// An unsigned integer type that numbers in a pattern can be read into.
pub trait ParsableInt: Copy + Sized + PartialEq + std::fmt::Debug {
    /// The number as a mathematical integer.
    spec fn value(self) -> nat;

    /// The largest number of the type.
    spec fn max_value() -> nat;

    /// Every number of the type is at most its largest one.
    proof fn lemma_value_bound(self)
        ensures
            self.value() <= Self::max_value(),
    ;

    /// Reads an unsigned decimal number of the type.
    fn parse(reader: &mut Reader) -> (r: Result<Self>)
        requires
            old(reader).wf(),
        ensures
            final(reader).wf(),
            final(reader).chars == old(reader).chars,
            crate::parse::error_within(r, old(reader).end_pos()),
            final(reader).index == old(reader).index + digit_count(old(reader).rest()),
            match (r, read_number_result(old(reader)@, Self::max_value())) {
                (Ok(v), Ok(w)) => v.value() == w,
                (Err(e), Err(f)) => e@ == f,
                _ => false,
            },
    ;

    /// The number zero.
    fn zero() -> (v: Self)
        ensures
            v.value() == 0,
    ;

    /// The number one.
    fn one() -> (v: Self)
        ensures
            v.value() == 1,
    ;

    /// The sum, unless it is larger than the type allows.
    fn checked_sum(self, other: Self) -> (r: Option<Self>)
        ensures
            match r {
                Some(v) => v.value() == self.value() + other.value(),
                None => self.value() + other.value() > Self::max_value(),
            },
    ;

    /// The difference of a number no greater than this one.
    fn minus(self, other: Self) -> (r: Self)
        requires
            other.value() <= self.value(),
        ensures
            r.value() == self.value() - other.value(),
    ;

    /// Whether this number is smaller than `other`.
    fn is_below(self, other: Self) -> (b: bool)
        ensures
            b == (self.value() < other.value()),
    ;

    /// The decimal form of the number.
    fn to_decimal(self) -> (s: String)
        ensures
            s@ == decimal(self.value()),
    ;
}

impl ParsableInt for usize {
    open spec fn value(self) -> nat {
        self as nat
    }

    open spec fn max_value() -> nat {
        usize::MAX as nat
    }

    proof fn lemma_value_bound(self) {
    }

    fn parse(reader: &mut Reader) -> (r: Result<usize>) {
        parse_integer(reader)
    }

    fn zero() -> (v: usize) {
        0
    }

    fn one() -> (v: usize) {
        1
    }

    fn checked_sum(self, other: usize) -> (r: Option<usize>) {
        self.checked_add(other)
    }

    fn minus(self, other: usize) -> (r: usize) {
        self - other
    }

    fn is_below(self, other: usize) -> (b: bool) {
        self < other
    }

    fn to_decimal(self) -> (s: String) {
        crate::text::decimal_string(self as u128)
    }
}

impl ParsableInt for u64 {
    open spec fn value(self) -> nat {
        self as nat
    }

    open spec fn max_value() -> nat {
        u64::MAX as nat
    }

    proof fn lemma_value_bound(self) {
    }

    fn parse(reader: &mut Reader) -> (r: Result<u64>) {
        parse_number(reader)
    }

    fn zero() -> (v: u64) {
        0
    }

    fn one() -> (v: u64) {
        1
    }

    fn checked_sum(self, other: u64) -> (r: Option<u64>) {
        self.checked_add(other)
    }

    fn minus(self, other: u64) -> (r: u64) {
        self - other
    }

    fn is_below(self, other: u64) -> (b: bool) {
        self < other
    }

    fn to_decimal(self) -> (s: String) {
        crate::text::decimal_string(self as u128)
    }
}

} // verus!
