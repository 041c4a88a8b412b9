use vstd::prelude::*;
use crate::chars::chars_values;
use crate::index::{index_result, parse_index};
use crate::integer::{ParsableInt, digit_count, lemma_digit_count_exact, leading_number, parse_integer, parse_number, read_number_result};
use crate::parse::{Error, ErrorKind, ErrorKindView, ErrorView, Result, error_at};
use crate::reader::{Cursor, Reader, raw_chars};
use crate::text::{decimal, digit_char, digit_value, digits_value, is_digit, push_decimal, string_from_str};

verus! {

/// Delimiter between the start and the end of a range.
pub const RANGE_TO: char = '-';

/// Delimiter between the start and the length of a range.
pub const RANGE_OF_LENGTH: char = '+';

/// The character with index `i` exists and has value `c`.
pub open spec fn char_at(r: Cursor, i: int, c: char) -> bool {
    0 <= i < r.chars.len() && r.chars[i].value() == c
}

/// The character with index `i` exists and is a decimal digit.
pub open spec fn digit_at(r: Cursor, i: int) -> bool {
    0 <= i < r.chars.len() && is_digit(r.chars[i].value())
}

/// A range of character indices: a zero-based start and an optional length
/// (no length means "to the end").
#[derive(Debug, PartialEq, Clone, Copy)]
pub struct IndexRange {
    pub start: usize,
    pub length: Option<usize>,
}

/// What parsing an index range from `r` gives, with the index of the reader afterwards.
/// The syntax is `A-B` (one-based, inclusive), `A-` (to the end), `A+L` (a length), or `A`.
#[verifier::opaque]
pub open spec fn index_range_result(r: Cursor) -> (std::result::Result<IndexRange, ErrorView>, int) {
    let i0 = r.index;
    if i0 >= r.chars.len() {
        (Err(error_at(ErrorKindView::ExpectedRange, r.pos(), r.end_pos())), i0)
    } else if !digit_at(r, i0) {
        (Err(error_at(ErrorKindView::RangeInvalid(chars_values(r.rest())), r.pos(), r.end_pos())), i0)
    } else {
        let i1 = i0 + digit_count(r.rest());
        match index_result(r) {
            Err(e) => (Err(e), i1),
            Ok(start) => if char_at(r, i1, RANGE_TO) {
                let r2 = r.at(i1 + 1);
                if digit_at(r, i1 + 1) {
                    let i2 = i1 + 1 + digit_count(r2.rest());
                    match index_result(r2) {
                        Err(e) => (Err(e), i2),
                        Ok(end) => if start > end {
                            (
                                Err(error_at(ErrorKindView::RangeStartOverEnd(decimal(start + 1), decimal(end + 1)), r.pos(), r.pos_at(i2))),
                                i2,
                            )
                        } else {
                            (Ok(IndexRange { start: start as usize, length: Some((end - start + 1) as usize) }), i2)
                        },
                    }
                } else {
                    (Ok(IndexRange { start: start as usize, length: None }), i1 + 1)
                }
            } else if char_at(r, i1, RANGE_OF_LENGTH) {
                let r2 = r.at(i1 + 1);
                if digit_at(r, i1 + 1) {
                    let i2 = i1 + 1 + digit_count(r2.rest());
                    match read_number_result(r2, usize::MAX as nat) {
                        Err(e) => (Err(e), i2),
                        Ok(length) => (Ok(IndexRange { start: start as usize, length: Some(length as usize) }), i2),
                    }
                } else {
                    (Err(error_at(ErrorKindView::ExpectedRangeLength, r.pos_at(i1 + 1), r.end_pos())), i1 + 1)
                }
            } else {
                (Ok(IndexRange { start: start as usize, length: Some(1) }), i1)
            },
        }
    }
}

/// The same result with its error given by view.
pub open spec fn index_range_view(r: Result<IndexRange>) -> std::result::Result<IndexRange, ErrorView> {
    match r {
        Ok(v) => Ok(v),
        Err(e) => Err(e@),
    }
}

impl IndexRange {
    /// A range from `start` (zero-based) of the given length.
    pub fn new(start: usize, length: Option<usize>) -> (r: IndexRange)
        ensures
            r.start == start,
            r.length == length,
    {
        IndexRange { start, length }
    }

    /// The zero-based start.
    pub fn start(&self) -> (s: usize)
        ensures
            s == self.start,
    {
        self.start
    }

    /// The length, if the range does not run to the end.
    pub fn length(&self) -> (l: Option<usize>)
        ensures
            l == self.length,
    {
        self.length
    }

    /// Parses an index range.
    pub fn parse(reader: &mut Reader) -> (r: Result<IndexRange>)
        requires
            old(reader).wf(),
        ensures
            final(reader).wf(),
            final(reader).chars == old(reader).chars,
            crate::parse::error_within(r, old(reader).end_pos()),
            final(reader).index == index_range_result(old(reader)@).1,
            index_range_view(r) == index_range_result(old(reader)@).0,
    {
        reveal(index_range_result);
        let ghost r0 = *reader;
        match reader.peek_char() {
            None => Err(Error { kind: ErrorKind::ExpectedRange, range: reader.position()..reader.end() }),
            Some(c) => {
                if !('0' <= c && c <= '9') {
                    let rest = reader.peek_to_end().to_string();
                    return Err(Error { kind: ErrorKind::RangeInvalid(rest), range: reader.position()..reader.end() });
                }
                let start_pos = reader.position();
                let start = parse_index(reader)?;
                match reader.peek_char() {
                    Some(d) => {
                        if d == RANGE_TO {
                            reader.seek();
                            let ghost r2 = *reader;
                            match reader.peek_char() {
                                Some(e) => {
                                    if '0' <= e && e <= '9' {
                                        let end = parse_index(reader)?;
                                        if start > end {
                                            let mut first = String::new();
                                            push_decimal(&mut first, start as u128 + 1);
                                            let mut second = String::new();
                                            push_decimal(&mut second, end as u128 + 1);
                                            proof {
                                                assert(first@ =~= decimal((start + 1) as nat));
                                                assert(second@ =~= decimal((end + 1) as nat));
                                            }
                                            Err(Error {
                                                kind: ErrorKind::RangeStartOverEnd(first, second),
                                                range: start_pos..reader.position(),
                                            })
                                        } else {
                                            Ok(IndexRange { start, length: Some(end - start + 1) })
                                        }
                                    } else {
                                        Ok(IndexRange { start, length: None })
                                    }
                                },
                                None => Ok(IndexRange { start, length: None }),
                            }
                        } else if d == RANGE_OF_LENGTH {
                            reader.seek();
                            match reader.peek_char() {
                                Some(e) => {
                                    if '0' <= e && e <= '9' {
                                        let length = parse_integer(reader)?;
                                        Ok(IndexRange { start, length: Some(length) })
                                    } else {
                                        Err(Error { kind: ErrorKind::ExpectedRangeLength, range: reader.position()..reader.end() })
                                    }
                                },
                                None => Err(Error { kind: ErrorKind::ExpectedRangeLength, range: reader.position()..reader.end() }),
                            }
                        } else {
                            Ok(IndexRange { start, length: Some(1) })
                        }
                    },
                    None => Ok(IndexRange { start, length: Some(1) }),
                }
            },
        }
    }

    /// How the range is shown: one-based `A..B` (end exclusive) or `A..`.
    pub open spec fn display(&self) -> Seq<char> {
        match self.length {
            Some(length) => decimal((self.start + 1) as nat) + ".."@ + decimal((self.start + length) as nat),
            None => decimal((self.start + 1) as nat) + ".."@,
        }
    }

    /// How the range is shown.
    pub fn to_display_string(&self) -> (s: String)
        ensures
            s@ == self.display(),
    {
        let mut s = String::new();
        push_decimal(&mut s, self.start as u128 + 1);
        s.append("..");
        match self.length {
            Some(length) => push_decimal(&mut s, self.start as u128 + length as u128),
            None => {},
        }
        assert(s@ =~= self.display());
        s
    }
}

/// An interval of numbers: a start and an optional inclusive end (no end means up to the
/// largest `u64`).
#[derive(Debug, PartialEq, Clone, Copy)]
pub struct NumberInterval {
    pub start: u64,
    pub end: Option<u64>,
}

/// What parsing a number interval from `r` gives, with the index of the reader afterwards.
/// The syntax is `A-B`, `A-`, or nothing at all (every number).
#[verifier::opaque]
pub open spec fn number_interval_result(r: Cursor) -> (std::result::Result<NumberInterval, ErrorView>, int) {
    let i0 = r.index;
    if i0 >= r.chars.len() {
        (Ok(NumberInterval { start: 0, end: None }), i0)
    } else if !digit_at(r, i0) {
        (Err(error_at(ErrorKindView::RangeInvalid(chars_values(r.rest())), r.pos(), r.end_pos())), i0)
    } else {
        let i1 = i0 + digit_count(r.rest());
        match read_number_result(r, u64::MAX as nat) {
            Err(e) => (Err(e), i1),
            Ok(start) => if char_at(r, i1, RANGE_TO) {
                let r2 = r.at(i1 + 1);
                if digit_at(r, i1 + 1) {
                    let i2 = i1 + 1 + digit_count(r2.rest());
                    match read_number_result(r2, u64::MAX as nat) {
                        Err(e) => (Err(e), i2),
                        Ok(end) => if start > end {
                            (
                                Err(error_at(ErrorKindView::RangeStartOverEnd(decimal(start), decimal(end)), r.pos(), r.pos_at(i2))),
                                i2,
                            )
                        } else {
                            (Ok(NumberInterval { start: start as u64, end: Some(end as u64) }), i2)
                        },
                    }
                } else {
                    (Ok(NumberInterval { start: start as u64, end: None }), i1 + 1)
                }
            } else if i1 < r.chars.len() {
                (
                    Err(error_at(ErrorKindView::ExpectedRangeDelimiter(Some(r.chars[i1])), r.pos_at(i1), r.pos_at(i1 + 1))),
                    i1 + 1,
                )
            } else {
                (Err(error_at(ErrorKindView::ExpectedRangeDelimiter(None), r.pos_at(i1), r.pos_at(i1))), i1)
            },
        }
    }
}

/// The same result with its error given by view.
pub open spec fn number_interval_view(r: Result<NumberInterval>) -> std::result::Result<NumberInterval, ErrorView> {
    match r {
        Ok(v) => Ok(v),
        Err(e) => Err(e@),
    }
}

impl NumberInterval {
    /// An interval from `start` to `end` (inclusive).
    pub fn new(start: u64, end: Option<u64>) -> (r: NumberInterval)
        ensures
            r.start == start,
            r.end == end,
    {
        NumberInterval { start, end }
    }

    /// The lowest number.
    pub fn start(&self) -> (s: u64)
        ensures
            s == self.start,
    {
        self.start
    }

    /// The highest number, if bounded.
    pub fn end(&self) -> (e: Option<u64>)
        ensures
            e == self.end,
    {
        self.end
    }

    /// Parses a number interval.
    pub fn parse(reader: &mut Reader) -> (r: Result<NumberInterval>)
        requires
            old(reader).wf(),
        ensures
            final(reader).wf(),
            final(reader).chars == old(reader).chars,
            crate::parse::error_within(r, old(reader).end_pos()),
            final(reader).index == number_interval_result(old(reader)@).1,
            number_interval_view(r) == number_interval_result(old(reader)@).0,
    {
        reveal(number_interval_result);
        match reader.peek_char() {
            None => Ok(NumberInterval { start: 0, end: None }),
            Some(c) => {
                if !('0' <= c && c <= '9') {
                    let rest = reader.peek_to_end().to_string();
                    return Err(Error { kind: ErrorKind::RangeInvalid(rest), range: reader.position()..reader.end() });
                }
                let start_pos = reader.position();
                let start = parse_number(reader)?;
                let position = reader.position();
                if reader.read_expected(RANGE_TO) {
                    match reader.peek_char() {
                        Some(e) => {
                            if '0' <= e && e <= '9' {
                                let end = parse_number(reader)?;
                                if start > end {
                                    let mut first = String::new();
                                    push_decimal(&mut first, start as u128);
                                    let mut second = String::new();
                                    push_decimal(&mut second, end as u128);
                                    proof {
                                        assert(first@ =~= decimal(start as nat));
                                        assert(second@ =~= decimal(end as nat));
                                    }
                                    Err(Error {
                                        kind: ErrorKind::RangeStartOverEnd(first, second),
                                        range: start_pos..reader.position(),
                                    })
                                } else {
                                    Ok(NumberInterval { start, end: Some(end) })
                                }
                            } else {
                                Ok(NumberInterval { start, end: None })
                            }
                        },
                        None => Ok(NumberInterval { start, end: None }),
                    }
                } else {
                    let found = reader.read();
                    Err(Error { kind: ErrorKind::ExpectedRangeDelimiter(found), range: position..reader.position() })
                }
            },
        }
    }

    /// How the interval is shown: `[A, B]` or `[A, 2^64)`.
    pub open spec fn display(&self) -> Seq<char> {
        match self.end {
            Some(end) => "["@ + decimal(self.start as nat) + ", "@ + decimal(end as nat) + "]"@,
            None => "["@ + decimal(self.start as nat) + ", 2^64)"@,
        }
    }

    /// How the interval is shown.
    pub fn to_display_string(&self) -> (s: String)
        ensures
            s@ == self.display(),
    {
        let mut s = string_from_str("[");
        push_decimal(&mut s, self.start as u128);
        match self.end {
            Some(end) => {
                s.append(", ");
                push_decimal(&mut s, end as u128);
                s.append("]");
            },
            None => {
                s.append(", 2^64)");
            },
        }
        assert(s@ =~= self.display());
        s
    }
}

/// A parsed interval never ends before it starts.
pub proof fn lemma_number_interval_ordered(r: Cursor)
    ensures
        number_interval_result(r).0 matches Ok(i) ==> (i.end matches Some(e) ==> i.start <= e),
{
    reveal(number_interval_result);
}

/// The rules of a kind of range: whether its numbers are one-based indices, whether an
/// empty input stands for every number, whether a delimiter must follow the start, and
/// whether `A+L` is accepted.
pub trait RangeType {
    /// The type of the numbers.
    type Value: ParsableInt;

    /// Numbers are written one-based and kept zero-based.
    spec fn index_spec() -> bool;

    /// An empty input is the range of every number.
    spec fn empty_allowed_spec() -> bool;

    /// A delimiter must follow the start.
    spec fn delimiter_required_spec() -> bool;

    /// A length may follow the start.
    spec fn length_allowed_spec() -> bool;

    /// Numbers are written one-based and kept zero-based.
    fn index() -> (b: bool)
        ensures
            b == Self::index_spec(),
    ;

    /// An empty input is the range of every number.
    fn empty_allowed() -> (b: bool)
        ensures
            b == Self::empty_allowed_spec(),
    ;

    /// A delimiter must follow the start.
    fn delimiter_required() -> (b: bool)
        ensures
            b == Self::delimiter_required_spec(),
    ;

    /// A length may follow the start.
    fn length_allowed() -> (b: bool)
        ensures
            b == Self::length_allowed_spec(),
    ;
}

/// The rules of a kind of range, as plain values.
pub struct RangeRules {
    pub index: bool,
    pub empty_allowed: bool,
    pub delimiter_required: bool,
    pub length_allowed: bool,
    /// The largest number of the value type.
    pub max: nat,
}

/// The rules of the range kind `T`.
pub open spec fn rules<T: RangeType>() -> RangeRules {
    RangeRules {
        index: T::index_spec(),
        empty_allowed: T::empty_allowed_spec(),
        delimiter_required: T::delimiter_required_spec(),
        length_allowed: T::length_allowed_spec(),
        max: T::Value::max_value(),
    }
}

/// A range of numbers: a start and an optional end, exclusive (no end means "no bound").
#[derive(Debug, PartialEq)]
pub struct Range<T: RangeType>(pub T::Value, pub Option<T::Value>);

/// The mathematical content of a [`Range`].
pub struct RangeView {
    pub start: nat,
    pub end: Option<nat>,
}

impl<T: RangeType> View for Range<T> {
    type V = RangeView;

    open spec fn view(&self) -> RangeView {
        RangeView {
            start: self.0.value(),
            end: match self.1 {
                Some(e) => Some(e.value()),
                None => None,
            },
        }
    }
}

/// A number as kept by a range: one less when numbers are one-based indices (zero is then
/// refused).
pub open spec fn shifted(v: nat, index: bool) -> Option<nat> {
    if !index {
        Some(v)
    } else if v >= 1 {
        Some((v - 1) as nat)
    } else {
        None
    }
}

/// The exclusive end just past `last`, when it does not pass `max`.
pub open spec fn end_after(last: nat, max: nat) -> Option<nat> {
    if last + 1 <= max {
        Some(last + 1)
    } else {
        None
    }
}

/// What parsing a range of kind `k` from `r` gives, with the index of the reader afterwards.
/// The syntax is `A-B` (both inclusive), `A-` (no end), `A+L` (a length, where `k` allows
/// it), or `A`; where `k` requires a delimiter, `A` alone is refused.
#[verifier::opaque]
pub open spec fn range_result(r: Cursor, k: RangeRules) -> (std::result::Result<RangeView, ErrorView>, int) {
    let i0 = r.index;
    if i0 >= r.chars.len() {
        if k.empty_allowed {
            (Ok(RangeView { start: 0, end: None }), i0)
        } else {
            (Err(error_at(ErrorKindView::ExpectedRange, r.pos(), r.end_pos())), i0)
        }
    } else if !digit_at(r, i0) {
        (Err(error_at(ErrorKindView::RangeInvalid(chars_values(r.rest())), r.pos(), r.end_pos())), i0)
    } else {
        let i1 = i0 + digit_count(r.rest());
        match read_number_result(r, k.max) {
            Err(e) => (Err(e), i1),
            Ok(sv) => match shifted(sv, k.index) {
                None => (Err(error_at(ErrorKindView::IndexZero, r.pos(), r.pos_at(i1))), i1),
                Some(start) => if char_at(r, i1, RANGE_TO) {
                    let r2 = r.at(i1 + 1);
                    if digit_at(r, i1 + 1) {
                        let i2 = i1 + 1 + digit_count(r2.rest());
                        match read_number_result(r2, k.max) {
                            Err(e) => (Err(e), i2),
                            Ok(ev) => match shifted(ev, k.index) {
                                None => (Err(error_at(ErrorKindView::IndexZero, r.pos_at(i1 + 1), r.pos_at(i2))), i2),
                                Some(last) => if sv > ev {
                                    (
                                        Err(error_at(ErrorKindView::RangeStartOverEnd(decimal(sv), decimal(ev)), r.pos(), r.pos_at(i2))),
                                        i2,
                                    )
                                } else {
                                    (Ok(RangeView { start, end: end_after(last, k.max) }), i2)
                                },
                            },
                        }
                    } else {
                        (Ok(RangeView { start, end: None }), i1 + 1)
                    }
                } else if char_at(r, i1, RANGE_OF_LENGTH) && k.length_allowed {
                    let r2 = r.at(i1 + 1);
                    if digit_at(r, i1 + 1) {
                        let i2 = i1 + 1 + digit_count(r2.rest());
                        match read_number_result(r2, k.max) {
                            Err(e) => (Err(e), i2),
                            Ok(length) => (
                                Ok(RangeView {
                                    start,
                                    end: if start + length <= k.max {
                                        Some(start + length)
                                    } else {
                                        None
                                    },
                                }),
                                i2,
                            ),
                        }
                    } else {
                        (Err(error_at(ErrorKindView::ExpectedRangeLength, r.pos_at(i1 + 1), r.end_pos())), i1 + 1)
                    }
                } else if k.delimiter_required {
                    if i1 < r.chars.len() {
                        (
                            Err(error_at(ErrorKindView::ExpectedRangeDelimiter(Some(r.chars[i1])), r.pos_at(i1), r.pos_at(i1 + 1))),
                            i1 + 1,
                        )
                    } else {
                        (Err(error_at(ErrorKindView::ExpectedRangeDelimiter(None), r.pos_at(i1), r.pos_at(i1))), i1)
                    }
                } else {
                    (Ok(RangeView { start, end: end_after(start, k.max) }), i1)
                },
            },
        }
    }
}

/// A range that parsing gives never ends before it starts, so its length is defined.
pub proof fn lemma_parsed_range_ordered(r: Cursor, k: RangeRules)
    ensures
        range_result(r, k).0 matches Ok(v) ==> (v.end matches Some(e) ==> v.start <= e),
{
    reveal(range_result);
}

/// A range that parsing gives without a length ends, if at all, just past its last
/// number, so never at zero.
pub proof fn lemma_parsed_range_end(r: Cursor, k: RangeRules)
    ensures
        !k.length_allowed ==> (range_result(r, k).0 matches Ok(v) ==> (v.end matches Some(e) ==> e >= 1)),
{
    reveal(range_result);
}

impl<T: RangeType> Range<T> {
    /// A range from `start` to `end` (exclusive).
    pub fn new(start: T::Value, end: Option<T::Value>) -> (r: Self)
        ensures
            r.0 == start,
            r.1 == end,
    {
        Range(start, end)
    }

    /// The number as the range keeps it.
    fn maybe_shift(value: T::Value) -> (r: crate::parse::BaseResult<T::Value>)
        ensures
            match (r, shifted(value.value(), T::index_spec())) {
                (Ok(v), Some(w)) => v.value() == w,
                (Err(k), None) => k@ == ErrorKindView::IndexZero,
                _ => false,
            },
    {
        if T::index() {
            let one = T::Value::one();
            if value.is_below(one) {
                Err(ErrorKind::IndexZero)
            } else {
                Ok(value.minus(one))
            }
        } else {
            Ok(value)
        }
    }

    /// The end just past `last`, when the value type can hold it.
    fn end_after(last: T::Value) -> (r: Option<T::Value>)
        ensures
            match (r, end_after(last.value(), T::Value::max_value())) {
                (Some(v), Some(w)) => v.value() == w,
                (None, None) => true,
                _ => false,
            },
    {
        let one = T::Value::one();
        let r = last.checked_sum(one);
        proof {
            if let Some(v) = r {
                v.lemma_value_bound();
            }
        }
        r
    }

    /// Parses a range.
    pub fn parse(reader: &mut Reader) -> (r: Result<Self>)
        requires
            old(reader).wf(),
        ensures
            final(reader).wf(),
            final(reader).chars == old(reader).chars,
            crate::parse::error_within(r, old(reader).end_pos()),
            final(reader).index == range_result(old(reader)@, rules::<T>()).1,
            match (r, range_result(old(reader)@, rules::<T>()).0) {
                (Ok(v), Ok(w)) => v@ == w,
                (Err(e), Err(f)) => e@ == f,
                _ => false,
            },
    {
        reveal(range_result);
        let c = match reader.peek_char() {
            Some(c) => c,
            None => {
                if T::empty_allowed() {
                    return Ok(Range(T::Value::zero(), None));
                } else {
                    return Err(Error { kind: ErrorKind::ExpectedRange, range: reader.position()..reader.end() });
                }
            },
        };
        if !('0' <= c && c <= '9') {
            let rest = reader.peek_to_end().to_string();
            return Err(Error { kind: ErrorKind::RangeInvalid(rest), range: reader.position()..reader.end() });
        }
        let start_pos = reader.position();
        let start_val = T::Value::parse(reader)?;
        let start = match Self::maybe_shift(start_val) {
            Ok(v) => v,
            Err(kind) => {
                return Err(Error { kind, range: start_pos..reader.position() });
            },
        };
        let next = match reader.peek_char() {
            Some(d) => d,
            None => ' ',
        };
        let more = reader.peek_char().is_some();
        if more && next == RANGE_TO {
            reader.seek();
            match reader.peek_char() {
                Some(e) => {
                    if '0' <= e && e <= '9' {
                        let end_pos = reader.position();
                        let end_val = T::Value::parse(reader)?;
                        let last = match Self::maybe_shift(end_val) {
                            Ok(v) => v,
                            Err(kind) => {
                                return Err(Error { kind, range: end_pos..reader.position() });
                            },
                        };
                        if end_val.is_below(start_val) {
                            Err(Error {
                                kind: ErrorKind::RangeStartOverEnd(start_val.to_decimal(), end_val.to_decimal()),
                                range: start_pos..reader.position(),
                            })
                        } else {
                            Ok(Range(start, Self::end_after(last)))
                        }
                    } else {
                        Ok(Range(start, None))
                    }
                },
                None => Ok(Range(start, None)),
            }
        } else if more && next == RANGE_OF_LENGTH && T::length_allowed() {
            reader.seek();
            match reader.peek_char() {
                Some(e) => {
                    if '0' <= e && e <= '9' {
                        let length = T::Value::parse(reader)?;
                        let end = start.checked_sum(length);
                        proof {
                            if let Some(v) = end {
                                v.lemma_value_bound();
                            }
                        }
                        Ok(Range(start, end))
                    } else {
                        Err(Error { kind: ErrorKind::ExpectedRangeLength, range: reader.position()..reader.end() })
                    }
                },
                None => Err(Error { kind: ErrorKind::ExpectedRangeLength, range: reader.position()..reader.end() }),
            }
        } else if T::delimiter_required() {
            let position = reader.position();
            let found = reader.read();
            Err(Error { kind: ErrorKind::ExpectedRangeDelimiter(found), range: position..reader.position() })
        } else {
            Ok(Range(start, Self::end_after(start)))
        }
    }

    /// The start.
    pub fn start(&self) -> (s: T::Value)
        ensures
            s == self.0,
    {
        self.0
    }

    /// The end (exclusive), if there is one.
    pub fn end(&self) -> (e: Option<T::Value>)
        ensures
            e == self.1,
    {
        self.1
    }

    /// The number of values from the start to the end, if there is an end.
    pub fn length(&self) -> (l: Option<T::Value>)
        requires
            self.1 matches Some(e) ==> self.0.value() <= e.value(),
        ensures
            match (l, self.1) {
                (Some(n), Some(e)) => n.value() == e.value() - self.0.value(),
                (None, None) => true,
                _ => false,
            },
    {
        match self.1 {
            Some(end) => Some(end.minus(self.0)),
            None => None,
        }
    }
}

/// The character of a decimal digit is a digit with that value.
proof fn lemma_digit_char_value(d: nat)
    requires
        d < 10,
    ensures
        is_digit(digit_char(d)),
        digit_value(digit_char(d)) == Some(d),
{
    if d == 0 {
    } else if d == 1 {
    } else if d == 2 {
    } else if d == 3 {
    } else if d == 4 {
    } else if d == 5 {
    } else if d == 6 {
    } else if d == 7 {
    } else if d == 8 {
    } else {
        assert(d == 9);
    }
}

/// The decimal representation of `n` is made of digits and reads back as `n`.
pub proof fn lemma_decimal_reads_back(n: nat)
    ensures
        decimal(n).len() >= 1,
        forall|j: int| 0 <= j < decimal(n).len() ==> #[trigger] is_digit(decimal(n)[j]),
        digits_value(decimal(n)) == n,
    decreases n,
{
    if n < 10 {
        lemma_digit_char_value(n);
        assert(decimal(n).drop_last() =~= Seq::<char>::empty());
        assert(digits_value(Seq::<char>::empty()) == 0);
    } else {
        lemma_decimal_reads_back(n / 10);
        lemma_digit_char_value(n % 10);
        let d = decimal(n);
        assert(d.drop_last() =~= decimal(n / 10));
        assert(digits_value(d) == digits_value(decimal(n / 10)) * 10 + n % 10);
        assert((n / 10) * 10 + n % 10 == n) by (nonlinear_arith);
        assert forall|j: int| 0 <= j < d.len() implies #[trigger] is_digit(d[j]) by {
            if j < d.len() - 1 {
                assert(d[j] == decimal(n / 10)[j]);
            }
        }
    }
}

/// Pattern characters that start with the decimal representation of `n`, followed by
/// nothing or by a character that is not a digit, start with a number of exactly that many
/// digits, whose value is `n`.
proof fn lemma_leading_decimal(n: nat, rest: Seq<char>)
    requires
        rest.len() > 0 ==> !is_digit(rest[0]),
    ensures
        digit_count(raw_chars(decimal(n) + rest)) == decimal(n).len(),
        leading_number(raw_chars(decimal(n) + rest)) == n,
{
    lemma_decimal_reads_back(n);
    let d = decimal(n);
    let s = raw_chars(d + rest);
    assert forall|j: int| 0 <= j < d.len() implies #[trigger] is_digit(s[j].value()) by {
        assert(s[j].value() == d[j]);
    }
    if d.len() < s.len() {
        assert(s[d.len() as int].value() == rest[0]);
    }
    lemma_digit_count_exact(s, d.len() as int);
    assert(chars_values(s.take(d.len() as int)) =~= d);
}

/// Parsing `A-B` (two positive numbers in decimal, no greater than the largest value) as
/// a range of one-based indices gives the zero-based start `A - 1` and the exclusive end
/// `B` when `A <= B`, and otherwise the error that the start is past the end, over the
/// whole text.
pub proof fn lemma_range_of_bounds(a: nat, b: nat, k: RangeRules)
    requires
        k.index,
        1 <= a <= k.max,
        1 <= b <= k.max,
    ensures
        ({
            let text = decimal(a) + seq![RANGE_TO] + decimal(b);
            let r = Cursor { chars: raw_chars(text), index: 0 };
            range_result(r, k).0 == if a <= b {
                Ok::<RangeView, ErrorView>(RangeView { start: (a - 1) as nat, end: Some(b) })
            } else {
                Err(error_at(ErrorKindView::RangeStartOverEnd(decimal(a), decimal(b)), 0, r.end_pos()))
            }
        }),
{
    reveal(range_result);
    let da = decimal(a);
    let db = decimal(b);
    let tail = seq![RANGE_TO] + db;
    let text = da + tail;
    assert(text =~= decimal(a) + seq![RANGE_TO] + decimal(b));
    let r = Cursor { chars: raw_chars(text), index: 0 };
    lemma_leading_decimal(a, tail);
    lemma_leading_decimal(b, Seq::empty());
    assert(r.rest() =~= raw_chars(da + tail));
    let i1 = da.len() as int;
    let r2 = r.at(i1 + 1);
    assert(r2.rest() =~= raw_chars(db + Seq::<char>::empty()));
    assert(r.chars[i1].value() == RANGE_TO);
    assert(r.chars[i1 + 1].value() == db[0]);
    assert(r.chars.take(0) =~= Seq::<crate::chars::Char>::empty());
    assert(r.chars.take(r.chars.len() as int) =~= r.chars);
}

/// Parsing `A+L` (a positive start and a length in decimal, no greater than the largest
/// value) as a range of one-based indices that allows lengths gives the zero-based start
/// `A - 1` and the exclusive end `A - 1 + L`, or no end when that passes the largest value.
pub proof fn lemma_range_of_length(a: nat, l: nat, k: RangeRules)
    requires
        k.index,
        k.length_allowed,
        1 <= a <= k.max,
        l <= k.max,
    ensures
        ({
            let text = decimal(a) + seq![RANGE_OF_LENGTH] + decimal(l);
            let r = Cursor { chars: raw_chars(text), index: 0 };
            range_result(r, k).0 == Ok::<RangeView, ErrorView>(
                RangeView {
                    start: (a - 1) as nat,
                    end: if a - 1 + l <= k.max {
                        Some((a - 1 + l) as nat)
                    } else {
                        None
                    },
                },
            )
        }),
{
    reveal(range_result);
    let da = decimal(a);
    let dl = decimal(l);
    let tail = seq![RANGE_OF_LENGTH] + dl;
    let text = da + tail;
    assert(text =~= decimal(a) + seq![RANGE_OF_LENGTH] + decimal(l));
    let r = Cursor { chars: raw_chars(text), index: 0 };
    lemma_leading_decimal(a, tail);
    lemma_leading_decimal(l, Seq::empty());
    assert(r.rest() =~= raw_chars(da + tail));
    let i1 = da.len() as int;
    let r2 = r.at(i1 + 1);
    assert(r2.rest() =~= raw_chars(dl + Seq::<char>::empty()));
    assert(r.chars[i1].value() == RANGE_OF_LENGTH);
    assert(r.chars[i1 + 1].value() == dl[0]);
}

} // verus!
