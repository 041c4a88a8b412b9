use vstd::prelude::*;
use crate::eval::BaseResult;
use crate::repetition::repeat_text;
use crate::text::decimal;
use rand::Rng;

verus! {

/// `value` repeated `count` times.
pub fn repetition(value: &str, count: usize) -> (r: BaseResult<String>)
    ensures
        r matches Ok(s) && s@ == repeat_text(value@, count as nat),
{
    Ok(repeated(value, count))
}

/// `value` repeated `count` times.
pub fn repeated(value: &str, count: usize) -> (s: String)
    ensures
        s@ == repeat_text(value@, count as nat),
{
    let mut s = String::new();
    let mut i: usize = 0;
    while i < count
        invariant
            i <= count,
            s@ == repeat_text(value@, i as nat),
        decreases count - i,
    {
        s.append(value);
        i = i + 1;
    }
    s
}

/// The decimal form of a counter value.
pub fn counter(value: u32) -> (r: BaseResult<String>)
    ensures
        r matches Ok(s) && s@ == decimal(value as nat),
{
    Ok(crate::text::decimal_string(value as u128))
}

/// A random number below `length` (`Rng::gen_range(0, length)` on the thread's generator).
/// The value depends on chance; the contract only says that it lies below `length`.
#[verifier::external_body]
fn random_below(length: u64) -> (r: u64)
    requires
        length > 0,
    ensures
        r < length,
{
    rand::thread_rng().gen_range(0, length)
}

/// A random `u64` (`Rng::gen` on the thread's generator). Any value may come back.
#[verifier::external_body]
fn random_any() -> (r: u64) {
    rand::thread_rng().gen()
}

/// A random number between `start` and `end`, both inclusive.
pub fn random_in(start: u64, end: u64) -> (v: u64)
    requires
        start <= end,
    ensures
        start <= v <= end,
{
    match (end - start).checked_add(1) {
        Some(length) => start + random_below(length),
        None => random_any(),
    }
}

/// A random number between `start` and `end` (inclusive; no end means `u64::MAX`),
/// in decimal.
pub fn random_number(start: u64, end: Option<u64>) -> (r: BaseResult<String>)
    requires
        end matches Some(e) ==> start <= e,
    ensures
        r matches Ok(s) && exists|v: u64|
            start <= v && (end matches Some(e) ==> v <= e) && s@ == decimal(v as nat),
{
    let end = match end {
        Some(e) => e,
        None => u64::MAX,
    };
    let value = random_in(start, end);
    let s = crate::text::decimal_string(value as u128);
    assert(s@ == decimal(value as nat));
    Ok(s)
}

/// Whether `c` is a lowercase hexadecimal digit.
pub open spec fn is_lower_hex(c: char) -> bool {
    ('0' <= c && c <= '9') || ('a' <= c && c <= 'f')
}

/// Whether `s` has the shape of a version 4 UUID in lowercase hyphenated form.
pub open spec fn is_uuid_v4_text(s: Seq<char>) -> bool {
    &&& s.len() == 36
    &&& forall|i: int|
        0 <= i < 36 ==> if i == 8 || i == 13 || i == 18 || i == 23 {
            s[i] == '-'
        } else {
            is_lower_hex(#[trigger] s[i])
        }
    &&& s[14] == '4'
    &&& (s[19] == '8' || s[19] == '9' || s[19] == 'a' || s[19] == 'b')
}

/// A fresh random UUID (`Uuid::new_v4`, written by `Hyphenated::encode_lower`).
/// The bits depend on chance; the contract states the text's shape, which the outside
/// code sets: the hyphenated lowercase form, version 4, RFC 4122 variant.
#[verifier::external_body]
fn new_uuid_v4_text() -> (s: String)
    ensures
        is_uuid_v4_text(s@),
{
    let mut buffer = uuid::Uuid::encode_buffer();
    let text = uuid::Uuid::new_v4().to_hyphenated().encode_lower(&mut buffer);
    (*text).to_string()
}

/// A random UUID in lowercase hyphenated form.
pub fn random_uuid() -> (r: BaseResult<String>)
    ensures
        r matches Ok(s) && is_uuid_v4_text(s@),
{
    Ok(new_uuid_v4_text())
}

} // verus!
