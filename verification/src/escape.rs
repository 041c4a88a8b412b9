use vstd::prelude::*;
use crate::text::push_char;

verus! {

/// The lowercase hexadecimal digit for `d` (below sixteen).
pub open spec fn hex_digit(d: nat) -> char {
    if d < 10 {
        crate::text::digit_char(d)
    } else if d == 10 {
        'a'
    } else if d == 11 {
        'b'
    } else if d == 12 {
        'c'
    } else if d == 13 {
        'd'
    } else if d == 14 {
        'e'
    } else {
        'f'
    }
}

/// How a single character is shown in messages: non-ASCII characters as they are,
/// NUL as `\0`, and other ASCII characters the way `std::ascii::escape_default` shows them.
pub open spec fn escaped_char(c: char) -> Seq<char> {
    let v = c as u32;
    if v >= 0x80 {
        seq![c]
    } else if c == '\0' {
        seq!['\\', '0']
    } else if c == '\t' {
        seq!['\\', 't']
    } else if c == '\r' {
        seq!['\\', 'r']
    } else if c == '\n' {
        seq!['\\', 'n']
    } else if c == '\'' {
        seq!['\\', '\'']
    } else if c == '"' {
        seq!['\\', '"']
    } else if c == '\\' {
        seq!['\\', '\\']
    } else if 0x20 <= v && v < 0x7f {
        seq![c]
    } else {
        seq!['\\', 'x', hex_digit((v / 16) as nat), hex_digit((v % 16) as nat)]
    }
}

/// How a whole text is shown in messages: each character escaped in turn.
pub open spec fn escaped_text(s: Seq<char>) -> Seq<char>
    decreases s.len(),
{
    if s.len() == 0 {
        seq![]
    } else {
        escaped_text(s.drop_last()) + escaped_char(s.last())
    }
}

fn hex_digit_char(d: u32) -> (c: char)
    requires
        d < 16,
    ensures
        c == hex_digit(d as nat),
{
    if d == 0 {
        '0'
    } else if d == 1 {
        '1'
    } else if d == 2 {
        '2'
    } else if d == 3 {
        '3'
    } else if d == 4 {
        '4'
    } else if d == 5 {
        '5'
    } else if d == 6 {
        '6'
    } else if d == 7 {
        '7'
    } else if d == 8 {
        '8'
    } else if d == 9 {
        '9'
    } else if d == 10 {
        'a'
    } else if d == 11 {
        'b'
    } else if d == 12 {
        'c'
    } else if d == 13 {
        'd'
    } else if d == 14 {
        'e'
    } else {
        'f'
    }
}

/// Appends the escaped form of `char` to `string`.
pub fn append_escaped_char(string: &mut String, char: char)
    ensures
        final(string)@ == old(string)@ + escaped_char(char),
{
    let v = char as u32;
    if v >= 0x80 {
        push_char(string, char);
    } else if char == '\0' {
        push_char(string, '\\');
        push_char(string, '0');
    } else if char == '\t' {
        push_char(string, '\\');
        push_char(string, 't');
    } else if char == '\r' {
        push_char(string, '\\');
        push_char(string, 'r');
    } else if char == '\n' {
        push_char(string, '\\');
        push_char(string, 'n');
    } else if char == '\'' {
        push_char(string, '\\');
        push_char(string, '\'');
    } else if char == '"' {
        push_char(string, '\\');
        push_char(string, '"');
    } else if char == '\\' {
        push_char(string, '\\');
        push_char(string, '\\');
    } else if 0x20 <= v && v < 0x7f {
        push_char(string, char);
    } else {
        push_char(string, '\\');
        push_char(string, 'x');
        push_char(string, hex_digit_char(v / 16));
        push_char(string, hex_digit_char(v % 16));
    }
    assert(string@ =~= old(string)@ + escaped_char(char));
}

/// The escaped form of a single character.
pub fn escape_char(char: char) -> (s: String)
    ensures
        s@ == escaped_char(char),
{
    let mut result = String::new();
    append_escaped_char(&mut result, char);
    assert(result@ =~= escaped_char(char));
    result
}

/// Appends the escaped form of every character of `chars` to `string`.
pub fn append_escaped_chars(string: &mut String, chars: &[char])
    ensures
        final(string)@ == old(string)@ + escaped_text(chars@),
{
    let mut i: usize = 0;
    while i < chars.len()
        invariant
            i <= chars.len(),
            string@ == old(string)@ + escaped_text(chars@.take(i as int)),
        decreases chars.len() - i,
    {
        append_escaped_char(string, chars[i]);
        i = i + 1;
        assert(chars@.take(i as int).drop_last() =~= chars@.take(i - 1));
        assert(string@ =~= old(string)@ + escaped_text(chars@.take(i as int)));
    }
    assert(chars@.take(i as int) =~= chars@);
}

/// The escaped form of a whole text.
pub fn escape_str(str: &str) -> (s: String)
    ensures
        s@ == escaped_text(str@),
{
    let chars = crate::text::chars_of(str);
    let mut result = String::new();
    append_escaped_chars(&mut result, chars.as_slice());
    assert(result@ =~= escaped_text(str@));
    result
}

/// Escaping distributes over concatenation.
pub proof fn lemma_escaped_text_concat(a: Seq<char>, b: Seq<char>)
    ensures
        escaped_text(a + b) == escaped_text(a) + escaped_text(b),
    decreases b.len(),
{
    if b.len() == 0 {
        assert(a + b =~= a);
        assert(escaped_text(a) + escaped_text(b) =~= escaped_text(a));
    } else {
        lemma_escaped_text_concat(a, b.drop_last());
        assert((a + b).drop_last() =~= a + b.drop_last());
        assert(escaped_text(a + b) =~= escaped_text(a) + escaped_text(b));
    }
}

/// Text made of printable ASCII characters other than quotes and backslash,
/// or of non-ASCII characters, is shown unchanged.
pub proof fn lemma_escaped_text_plain(s: Seq<char>)
    requires
        forall|i: int|
            0 <= i < s.len() ==> {
                let v = #[trigger] s[i] as u32;
                v >= 0x80 || (0x20 <= v && v < 0x7f && s[i] != '\'' && s[i] != '"' && s[i]
                    != '\\')
            },
    ensures
        escaped_text(s) == s,
    decreases s.len(),
{
    if s.len() > 0 {
        lemma_escaped_text_plain(s.drop_last());
        let c = s.last();
        assert(s[s.len() - 1] == c);
        assert(escaped_char(c) =~= seq![c]);
        assert(s.drop_last().push(c) =~= s);
    }
}

} // verus!
