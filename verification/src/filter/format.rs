use vstd::prelude::*;
use crate::chars::{char_len_utf8, text_width};
use crate::eval::BaseResult;
use crate::repetition::repeat_text;
use crate::text::{chars_of, push_char, push_chars};

verus! {

/// Whether `c` has the Unicode `White_Space` property (what `char::is_whitespace` tests).
pub open spec fn is_whitespace(c: char) -> bool {
    let v = c as u32;
    (9 <= v && v <= 13) || v == 0x20 || v == 0x85 || v == 0xA0 || v == 0x1680 || (0x2000 <= v
        && v <= 0x200A) || v == 0x2028 || v == 0x2029 || v == 0x202F || v == 0x205F || v == 0x3000
}

fn char_is_whitespace(c: char) -> (b: bool)
    ensures
        b == is_whitespace(c),
{
    let v = c as u32;
    (9 <= v && v <= 13) || v == 0x20 || v == 0x85 || v == 0xA0 || v == 0x1680 || (0x2000 <= v
        && v <= 0x200A) || v == 0x2028 || v == 0x2029 || v == 0x202F || v == 0x205F || v == 0x3000
}

/// `s` without leading whitespace.
pub open spec fn trim_start(s: Seq<char>) -> Seq<char>
    decreases s.len(),
{
    if s.len() > 0 && is_whitespace(s[0]) {
        trim_start(s.drop_first())
    } else {
        s
    }
}

/// `s` without trailing whitespace.
pub open spec fn trim_end(s: Seq<char>) -> Seq<char>
    decreases s.len(),
{
    if s.len() > 0 && is_whitespace(s.last()) {
        trim_end(s.drop_last())
    } else {
        s
    }
}

/// `s` without leading and trailing whitespace.
pub open spec fn trim_text(s: Seq<char>) -> Seq<char> {
    trim_end(trim_start(s))
}

proof fn lemma_trim_start_at(s: Seq<char>, a: int)
    requires
        0 <= a <= s.len(),
        forall|j: int| 0 <= j < a ==> #[trigger] is_whitespace(s[j]),
        a < s.len() ==> !is_whitespace(s[a]),
    ensures
        trim_start(s) == s.skip(a),
    decreases a,
{
    if a == 0 {
        assert(s.skip(0) =~= s);
    } else {
        assert forall|j: int| 0 <= j < a - 1 implies #[trigger] is_whitespace(s.drop_first()[j]) by {
            assert(s.drop_first()[j] == s[j + 1]);
        }
        if a - 1 < s.drop_first().len() {
            assert(s.drop_first()[a - 1] == s[a]);
        }
        lemma_trim_start_at(s.drop_first(), a - 1);
        assert(s.drop_first().skip(a - 1) =~= s.skip(a));
    }
}

proof fn lemma_trim_end_at(s: Seq<char>, b: int)
    requires
        0 <= b <= s.len(),
        forall|j: int| b <= j < s.len() ==> #[trigger] is_whitespace(s[j]),
        b > 0 ==> !is_whitespace(s[b - 1]),
    ensures
        trim_end(s) == s.take(b),
    decreases s.len() - b,
{
    if b == s.len() {
        assert(s.take(b) =~= s);
    } else {
        assert forall|j: int| b <= j < s.drop_last().len() implies #[trigger] is_whitespace(
            s.drop_last()[j],
        ) by {
            assert(s.drop_last()[j] == s[j]);
        }
        if b > 0 {
            assert(s.drop_last()[b - 1] == s[b - 1]);
        }
        assert(is_whitespace(s[s.len() - 1]));
        lemma_trim_end_at(s.drop_last(), b);
        assert(s.drop_last().take(b) =~= s.take(b));
    }
}

proof fn lemma_trim_start_push(s: Seq<char>, c: char)
    requires
        is_whitespace(c),
    ensures
        trim_start(s.push(c)) == if trim_start(s).len() == 0 {
            Seq::<char>::empty()
        } else {
            trim_start(s).push(c)
        },
    decreases s.len(),
{
    if s.len() == 0 {
        assert(s.push(c).drop_first() =~= Seq::<char>::empty());
        assert(trim_start(s.push(c)) == trim_start(Seq::<char>::empty()));
    } else {
        assert(s.push(c)[0] == s[0]);
        assert(s.push(c).drop_first() =~= s.drop_first().push(c));
        if is_whitespace(s[0]) {
            lemma_trim_start_push(s.drop_first(), c);
        }
    }
}

/// Trimming removes every character with the Unicode `White_Space` property from either
/// end: tab, line feed, vertical tab, form feed, carriage return, space, next line,
/// no-break space, ogham space mark, the spaces from en quad to hair space, line separator,
/// paragraph separator, narrow no-break space, medium mathematical space and ideographic
/// space. Such a character put before or after a text does not change what trimming gives.
pub proof fn lemma_trim_white_space(s: Seq<char>, c: char)
    requires
        c == '\t' || c == '\n' || c == '\u{0B}' || c == '\u{0C}' || c == '\r' || c == ' ' || c == '\u{85}'
            || c == '\u{A0}' || c == '\u{1680}' || ('\u{2000}' <= c && c <= '\u{200A}') || c == '\u{2028}'
            || c == '\u{2029}' || c == '\u{202F}' || c == '\u{205F}' || c == '\u{3000}',
    ensures
        trim_text(seq![c] + s) == trim_text(s),
        trim_text(s.push(c)) == trim_text(s),
{
    assert(is_whitespace(c));
    let x = seq![c] + s;
    assert(x[0] == c);
    assert(x.drop_first() =~= s);
    assert(trim_start(x) == trim_start(s));
    lemma_trim_start_push(s, c);
    let t = trim_start(s);
    if t.len() > 0 {
        assert(t.push(c).drop_last() =~= t);
        assert(t.push(c).last() == c);
    } else {
        assert(trim_end(Seq::<char>::empty()) == Seq::<char>::empty());
        assert(t =~= Seq::<char>::empty());
    }
}

/// A character without the Unicode `White_Space` property is kept by trimming.
pub proof fn lemma_trim_keeps_other(c: char)
    requires
        !(c == '\t' || c == '\n' || c == '\u{0B}' || c == '\u{0C}' || c == '\r' || c == ' ' || c == '\u{85}'
            || c == '\u{A0}' || c == '\u{1680}' || ('\u{2000}' <= c && c <= '\u{200A}') || c == '\u{2028}'
            || c == '\u{2029}' || c == '\u{202F}' || c == '\u{205F}' || c == '\u{3000}'),
    ensures
        trim_text(seq![c]) == seq![c],
{
    assert(!is_whitespace(c));
    assert(seq![c][0] == c);
    assert(seq![c].last() == c);
}

/// The value without leading and trailing whitespace.
pub fn trim(value: String) -> (r: BaseResult<String>)
    ensures
        r matches Ok(s) && s@ == trim_text(value@),
{
    let chars = chars_of(value.as_str());
    let n = chars.len();
    let mut a: usize = 0;
    while a < n && char_is_whitespace(chars[a])
        invariant
            a <= n,
            n == chars@.len(),
            forall|j: int| 0 <= j < a ==> #[trigger] is_whitespace(chars@[j]),
        decreases n - a,
    {
        a = a + 1;
    }
    let mut b: usize = n;
    while b > a && char_is_whitespace(chars[b - 1])
        invariant
            a <= b <= n,
            n == chars@.len(),
            forall|j: int| b <= j < n ==> #[trigger] is_whitespace(chars@[j]),
        decreases b,
    {
        b = b - 1;
    }
    proof {
        let s = chars@;
        lemma_trim_start_at(s, a as int);
        let t = s.skip(a as int);
        assert forall|j: int| b - a <= j < t.len() implies #[trigger] is_whitespace(t[j]) by {
            assert(t[j] == s[a + j]);
        }
        if b > a {
            assert(t[b - a - 1] == s[b - 1]);
        }
        lemma_trim_end_at(t, b - a);
    }
    let part = vstd::slice::slice_subrange(chars.as_slice(), a, b);
    let mut s = String::new();
    push_chars(&mut s, part);
    assert(s@ =~= trim_text(value@));
    Ok(s)
}

/// What `str::to_lowercase` gives for a text (the Unicode lowercase mapping).
pub uninterp spec fn lowercase_text(s: Seq<char>) -> Seq<char>;

/// What `str::to_uppercase` gives for a text (the Unicode uppercase mapping).
pub uninterp spec fn uppercase_text(s: Seq<char>) -> Seq<char>;

/// `str::to_lowercase`. The Unicode case tables are not written out: the result is
/// named as a function of the input alone.
#[verifier::external_body]
fn lowercase_of(value: &str) -> (s: String)
    ensures
        s@ == lowercase_text(value@),
{
    value.to_lowercase()
}

/// `str::to_uppercase`. The Unicode case tables are not written out: the result is
/// named as a function of the input alone.
#[verifier::external_body]
fn uppercase_of(value: &str) -> (s: String)
    ensures
        s@ == uppercase_text(value@),
{
    value.to_uppercase()
}

/// The value in lowercase.
pub fn to_lowercase(value: String) -> (r: BaseResult<String>)
    ensures
        r matches Ok(s) && s@ == lowercase_text(value@),
{
    Ok(lowercase_of(value.as_str()))
}

/// The value in uppercase.
pub fn to_uppercase(value: String) -> (r: BaseResult<String>)
    ensures
        r matches Ok(s) && s@ == uppercase_text(value@),
{
    Ok(uppercase_of(value.as_str()))
}

/// Whether every character of `s` is ASCII.
pub open spec fn is_ascii_text(s: Seq<char>) -> bool {
    forall|i: int| 0 <= i < s.len() ==> (#[trigger] s[i] as u32) < 128
}

/// What `unidecode::unidecode_char` gives for a character: its ASCII transliteration.
pub uninterp spec fn transliteration(c: char) -> Seq<char>;

/// The ASCII transliteration of a whole text: each character's in turn
/// (this is how `unidecode::unidecode` is built from `unidecode_char`).
pub open spec fn transliterate_text(s: Seq<char>) -> Seq<char>
    decreases s.len(),
{
    if s.len() == 0 {
        seq![]
    } else {
        transliterate_text(s.drop_last()) + transliteration(s.last())
    }
}

/// `unidecode::unidecode_char`: the ASCII transliteration of one character.
/// Its table is not written out; the crate documents, and its table shows, that the
/// result is ASCII and that every ASCII character maps to itself.
#[verifier::external_body]
fn transliterate_char(c: char) -> (s: &'static str)
    ensures
        s@ == transliteration(c),
        is_ascii_text(s@),
        (c as u32) < 128 ==> s@ == seq![c],
{
    unidecode::unidecode_char(c)
}

/// The value transliterated to ASCII.
pub fn to_ascii(value: String) -> (r: BaseResult<String>)
    ensures
        r matches Ok(s) && s@ == transliterate_text(value@) && is_ascii_text(s@),
{
    let chars = chars_of(value.as_str());
    let mut s = String::new();
    let mut i: usize = 0;
    while i < chars.len()
        invariant
            i <= chars@.len(),
            s@ == transliterate_text(chars@.take(i as int)),
            is_ascii_text(s@),
        decreases chars.len() - i,
    {
        let part = transliterate_char(chars[i]);
        let ghost before = s@;
        s.append(part);
        i = i + 1;
        assert(chars@.take(i as int).drop_last() =~= chars@.take(i - 1));
        assert(is_ascii_text(s@)) by {
            assert forall|k: int| 0 <= k < s@.len() implies (#[trigger] s@[k] as u32) < 128 by {
                if k < before.len() {
                    assert(s@[k] == before[k]);
                } else {
                    assert(s@[k] == part@[k - before.len()]);
                }
            }
        }
    }
    assert(chars@.take(i as int) =~= chars@);
    Ok(s)
}

/// The ASCII characters of `s`, in order.
pub open spec fn ascii_only(s: Seq<char>) -> Seq<char>
    decreases s.len(),
{
    if s.len() == 0 {
        seq![]
    } else if (s.last() as u32) < 128 {
        ascii_only(s.drop_last()).push(s.last())
    } else {
        ascii_only(s.drop_last())
    }
}

/// The value with every non-ASCII character removed.
pub fn remove_non_ascii(value: String) -> (r: BaseResult<String>)
    ensures
        r matches Ok(s) && s@ == ascii_only(value@),
{
    let chars = chars_of(value.as_str());
    let mut s = String::new();
    let mut i: usize = 0;
    while i < chars.len()
        invariant
            i <= chars@.len(),
            s@ == ascii_only(chars@.take(i as int)),
        decreases chars.len() - i,
    {
        let c = chars[i];
        if (c as u32) < 128 {
            push_char(&mut s, c);
        }
        i = i + 1;
        assert(chars@.take(i as int).drop_last() =~= chars@.take(i - 1));
    }
    assert(chars@.take(i as int) =~= chars@);
    Ok(s)
}

/// The value, with as many leading characters of `padding` put before it as its
/// UTF-8 length falls short of the padding's length in characters.
pub open spec fn left_padded(value: Seq<char>, padding: Seq<char>) -> Seq<char> {
    let n = text_width(value);
    if n >= padding.len() {
        value
    } else {
        padding.take(padding.len() - n) + value
    }
}

/// The value, followed by the characters of `padding` beyond the value's UTF-8 length.
pub open spec fn right_padded(value: Seq<char>, padding: Seq<char>) -> Seq<char> {
    let n = text_width(value);
    if n >= padding.len() {
        value
    } else {
        value + padding.skip(n as int)
    }
}

/// The UTF-8 length of `chars`, or `limit` when that is smaller.
fn width_up_to(chars: &Vec<char>, limit: usize) -> (n: usize)
    ensures
        n == if text_width(chars@) < limit {
            text_width(chars@)
        } else {
            limit as nat
        },
{
    if limit == 0 {
        return 0;
    }
    let mut sum: usize = 0;
    let mut i: usize = 0;
    assert(chars@.take(0) =~= Seq::<char>::empty());
    while i < chars.len()
        invariant
            i <= chars@.len(),
            sum == text_width(chars@.take(i as int)),
            sum < limit,
        decreases chars.len() - i,
    {
        assert(chars@.take(i + 1).drop_last() =~= chars@.take(i as int));
        let w = char_len_utf8(chars[i]);
        if w >= limit - sum {
            proof {
                lemma_text_width_prefix(chars@, i + 1, chars@.len() as int);
                assert(chars@.take(chars@.len() as int) =~= chars@);
            }
            return limit;
        }
        sum = sum + w;
        i = i + 1;
    }
    assert(chars@.take(i as int) =~= chars@);
    sum
}

/// The width of a prefix never exceeds the width of the whole.
pub proof fn lemma_text_width_prefix(s: Seq<char>, i: int, j: int)
    requires
        0 <= i <= j <= s.len(),
    ensures
        text_width(s.take(i)) <= text_width(s.take(j)),
    decreases j - i,
{
    if i < j {
        lemma_text_width_prefix(s, i, j - 1);
        assert(s.take(j).drop_last() =~= s.take(j - 1));
    }
}

/// Pads the value on the left with the leading characters of `padding`.
pub fn left_pad(value: String, padding: &str) -> (r: BaseResult<String>)
    ensures
        r matches Ok(s) && s@ == left_padded(value@, padding@),
{
    let chars = chars_of(value.as_str());
    let pad = chars_of(padding);
    let n = width_up_to(&chars, pad.len());
    if n >= pad.len() {
        return Ok(value);
    }
    let prefix = vstd::slice::slice_subrange(pad.as_slice(), 0, pad.len() - n);
    let mut s = String::new();
    push_chars(&mut s, prefix);
    s.append(value.as_str());
    assert(s@ =~= left_padded(value@, padding@));
    Ok(s)
}

/// Pads the value on the right with the characters of `padding` beyond its length.
pub fn right_pad(value: String, padding: &str) -> (r: BaseResult<String>)
    ensures
        r matches Ok(s) && s@ == right_padded(value@, padding@),
{
    let chars = chars_of(value.as_str());
    let pad = chars_of(padding);
    let n = width_up_to(&chars, pad.len());
    if n >= pad.len() {
        return Ok(value);
    }
    let suffix = vstd::slice::slice_subrange(pad.as_slice(), n, pad.len());
    let mut s = value;
    push_chars(&mut s, suffix);
    assert(s@ =~= right_padded(value@, padding@));
    Ok(s)
}

/// Pads the value on the left with `padding` repeated `count` times.
pub fn left_pad_repeat(value: String, padding: &str, count: usize) -> (r: BaseResult<String>)
    ensures
        r matches Ok(s) && s@ == left_padded(value@, repeat_text(padding@, count as nat)),
{
    let expanded = crate::filter::generate::repeated(padding, count);
    left_pad(value, expanded.as_str())
}

/// Pads the value on the right with `padding` repeated `count` times.
pub fn right_pad_repeat(value: String, padding: &str, count: usize) -> (r: BaseResult<String>)
    ensures
        r matches Ok(s) && s@ == right_padded(value@, repeat_text(padding@, count as nat)),
{
    let expanded = crate::filter::generate::repeated(padding, count);
    right_pad(value, expanded.as_str())
}

/// ASCII text takes one byte per character.
pub proof fn lemma_ascii_width(s: Seq<char>)
    requires
        is_ascii_text(s),
    ensures
        text_width(s) == s.len(),
    decreases s.len(),
{
    if s.len() > 0 {
        let rest = s.drop_last();
        assert forall|i: int| 0 <= i < rest.len() implies (#[trigger] rest[i] as u32) < 0x80 by {
            assert(rest[i] == s[i]);
        }
        lemma_ascii_width(rest);
        assert((s.last() as u32) < 0x80);
    }
}

/// For an ASCII value, padding on the left puts before it the first characters of the
/// padding, as many as the value is shorter than the padding, and padding on the right
/// puts after it the characters of the padding past the value's length; a value at least
/// as long as the padding stays as it is.
pub proof fn lemma_ascii_padding(value: Seq<char>, padding: Seq<char>)
    requires
        is_ascii_text(value),
    ensures
        left_padded(value, padding) == if value.len() < padding.len() {
            padding.take(padding.len() - value.len()) + value
        } else {
            value
        },
        right_padded(value, padding) == if value.len() < padding.len() {
            value + padding.skip(value.len() as int)
        } else {
            value
        },
{
    lemma_ascii_width(value);
}

} // verus!
