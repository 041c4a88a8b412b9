use vstd::prelude::*;

verus! {

/// The two characters of an escape sequence: the escape character and the one after it.
pub type EscapeSequence = [char; 2];

/// Number of bytes that the UTF-8 encoding of `c` takes.
pub open spec fn char_width(c: char) -> nat {
    if (c as u32) < 0x80 {
        1
    } else if (c as u32) < 0x800 {
        2
    } else if (c as u32) < 0x10000 {
        3
    } else {
        4
    }
}

/// Number of bytes that the UTF-8 encoding of the characters `s` takes.
pub open spec fn text_width(s: Seq<char>) -> nat
    decreases s.len(),
{
    if s.len() == 0 {
        0
    } else {
        text_width(s.drop_last()) + char_width(s.last())
    }
}

/// `char::len_utf8`: the width of a plain character.
pub fn char_len_utf8(c: char) -> (n: usize)
    ensures
        n == char_width(c),
        1 <= n <= 4,
{
    let v = c as u32;
    if v < 0x80 {
        1
    } else if v < 0x800 {
        2
    } else if v < 0x10000 {
        3
    } else {
        4
    }
}

/// A character of a pattern: either written as itself, or produced by an escape sequence.
#[derive(Debug, PartialEq, Clone, Copy)]
pub enum Char {
    Raw(char),
    Escaped(char, EscapeSequence),
}

impl Char {
    /// The character that this item stands for.
    pub open spec fn value(self) -> char {
        match self {
            Char::Raw(c) => c,
            Char::Escaped(c, _) => c,
        }
    }

    /// Number of bytes that this item occupies in the pattern source.
    pub open spec fn width(self) -> nat {
        match self {
            Char::Raw(c) => char_width(c),
            Char::Escaped(_, seq) => char_width(seq@[0]) + char_width(seq@[1]),
        }
    }

    /// A raw character.
    pub fn from(value: char) -> (r: Char)
        ensures
            r == Char::Raw(value),
    {
        Char::Raw(value)
    }

    /// The character that this item stands for.
    pub fn as_char(&self) -> (c: char)
        ensures
            c == self.value(),
    {
        match self {
            Char::Raw(value) => *value,
            Char::Escaped(value, _) => *value,
        }
    }

    /// Number of bytes that this item occupies in the pattern source.
    pub fn len_utf8(&self) -> (n: usize)
        ensures
            n == self.width(),
            1 <= n <= 8,
    {
        match self {
            Char::Raw(value) => char_len_utf8(*value),
            Char::Escaped(_, sequence) => char_len_utf8(sequence[0]) + char_len_utf8(sequence[1]),
        }
    }
}

/// Total source width of a sequence of pattern characters.
pub open spec fn chars_width(s: Seq<Char>) -> nat
    decreases s.len(),
{
    if s.len() == 0 {
        0
    } else {
        chars_width(s.drop_last()) + s.last().width()
    }
}

/// The characters that a sequence of pattern characters stands for.
pub open spec fn chars_values(s: Seq<Char>) -> Seq<char> {
    s.map_values(|c: Char| c.value())
}

/// The width of a prefix never exceeds the width of the whole.
pub proof fn lemma_chars_width_prefix(s: Seq<Char>, i: int, j: int)
    requires
        0 <= i <= j <= s.len(),
    ensures
        chars_width(s.take(i)) <= chars_width(s.take(j)),
    decreases j - i,
{
    if i < j {
        lemma_chars_width_prefix(s, i, j - 1);
        assert(s.take(j).drop_last() =~= s.take(j - 1));
    }
}

/// The width of a sequence splits over a concatenation.
pub proof fn lemma_chars_width_concat(a: Seq<Char>, b: Seq<Char>)
    ensures
        chars_width(a + b) == chars_width(a) + chars_width(b),
    decreases b.len(),
{
    if b.len() > 0 {
        lemma_chars_width_concat(a, b.drop_last());
        assert((a + b).drop_last() =~= a + b.drop_last());
    } else {
        assert(a + b =~= a);
    }
}

/// Widening a prefix by one item adds the width of that item.
pub proof fn lemma_chars_width_step(s: Seq<Char>, i: int)
    requires
        0 <= i < s.len(),
    ensures
        chars_width(s.take(i + 1)) == chars_width(s.take(i)) + s[i].width(),
{
    assert(s.take(i + 1).drop_last() =~= s.take(i));
}

/// A borrowed run of pattern characters.
#[derive(Debug, PartialEq)]
pub struct Chars<'a>(pub &'a [Char]);

impl<'a> Chars<'a> {
    /// Wraps a slice of pattern characters.
    pub fn from(chars: &'a [Char]) -> (r: Chars<'a>)
        ensures
            r.0@ == chars@,
    {
        Chars(chars)
    }

    /// Total source width of these characters (0 for none).
    pub fn len_utf8(&self) -> (n: usize)
        requires
            chars_width(self.0@) <= usize::MAX,
        ensures
            n == chars_width(self.0@),
    {
        let mut sum: usize = 0;
        let mut i: usize = 0;
        while i < self.0.len()
            invariant
                i <= self.0@.len(),
                sum == chars_width(self.0@.take(i as int)),
                chars_width(self.0@) <= usize::MAX,
            decreases self.0.len() - i,
        {
            proof {
                lemma_chars_width_step(self.0@, i as int);
                lemma_chars_width_prefix(self.0@, i + 1, self.0@.len() as int);
                assert(self.0@.take(self.0@.len() as int) =~= self.0@);
            }
            sum = sum + self.0[i].len_utf8();
            i = i + 1;
        }
        assert(self.0@.take(i as int) =~= self.0@);
        sum
    }

    /// The characters that these items stand for, as a string.
    pub fn to_string(&self) -> (s: String)
        ensures
            s@ == chars_values(self.0@),
    {
        let mut s = String::new();
        let mut i: usize = 0;
        while i < self.0.len()
            invariant
                i <= self.0@.len(),
                s@ == chars_values(self.0@.take(i as int)),
            decreases self.0.len() - i,
        {
            crate::text::push_char(&mut s, self.0[i].as_char());
            i = i + 1;
            assert(chars_values(self.0@.take(i as int)) =~= chars_values(self.0@.take(i - 1)).push(self.0@[i - 1].value()));
        }
        assert(self.0@.take(i as int) =~= self.0@);
        s
    }
}

} // verus!

verus! {

impl Char {
    /// How this item is shown in messages: `'c'`, or `'c' (escape sequence 'xy')`.
    pub open spec fn display(self) -> Seq<char> {
        match self {
            Char::Raw(c) => "'"@ + crate::escape::escaped_char(c) + "'"@,
            Char::Escaped(c, seq) => "'"@ + crate::escape::escaped_char(c) + "' (escape sequence '"@
                + crate::escape::escaped_char(seq@[0]) + crate::escape::escaped_char(seq@[1])
                + "')"@,
        }
    }

    /// How this item is shown in messages.
    pub fn to_display_string(&self) -> (s: String)
        ensures
            s@ == self.display(),
    {
        let mut s = crate::text::string_from_str("'");
        match self {
            Char::Raw(c) => {
                crate::escape::append_escaped_char(&mut s, *c);
                s.append("'");
            },
            Char::Escaped(c, seq) => {
                crate::escape::append_escaped_char(&mut s, *c);
                s.append("' (escape sequence '");
                crate::escape::append_escaped_char(&mut s, seq[0]);
                crate::escape::append_escaped_char(&mut s, seq[1]);
                s.append("')");
            },
        }
        assert(s@ =~= self.display());
        s
    }
}

/// A character of a pattern, plain or written as an escape sequence: its value and how
/// many bytes of the source it occupies.
pub trait AsChar {
    /// The character that the item stands for.
    spec fn char_value(&self) -> char;

    /// Number of bytes that the item occupies in the source.
    spec fn source_width(&self) -> nat;

    /// The character that the item stands for.
    fn as_char(&self) -> (c: char)
        ensures
            c == self.char_value(),
    ;

    /// Number of bytes that the item occupies in the source.
    fn len_utf8(&self) -> (n: usize)
        ensures
            n == self.source_width(),
    ;
}

impl AsChar for char {
    open spec fn char_value(&self) -> char {
        *self
    }

    open spec fn source_width(&self) -> nat {
        char_width(*self)
    }

    fn as_char(&self) -> (c: char) {
        *self
    }

    fn len_utf8(&self) -> (n: usize) {
        char_len_utf8(*self)
    }
}

impl AsChar for Char {
    open spec fn char_value(&self) -> char {
        self.value()
    }

    open spec fn source_width(&self) -> nat {
        self.width()
    }

    fn as_char(&self) -> (c: char) {
        Char::as_char(self)
    }

    fn len_utf8(&self) -> (n: usize) {
        Char::len_utf8(self)
    }
}

} // verus!
