use vstd::prelude::*;
use vstd::slice::slice_subrange;
use crate::chars::{Char, Chars, chars_width, lemma_chars_width_prefix};

verus! {

/// The pattern characters of a text, each written as itself.
pub open spec fn raw_chars(s: Seq<char>) -> Seq<Char> {
    Seq::new(s.len(), |i: int| raw_char(s[i]))
}

/// A pattern character written as itself.
pub open spec fn raw_char(c: char) -> Char {
    Char::Raw(c)
}

/// Extending a text by one character extends its pattern characters by one.
pub proof fn lemma_raw_chars_push(s: Seq<char>, c: char)
    ensures
        raw_chars(s.push(c)) == raw_chars(s).push(raw_char(c)),
{
    assert(raw_chars(s.push(c)) =~= raw_chars(s).push(raw_char(c)));
}

/// A position in a sequence of pattern characters: what parsing reads from.
pub struct Cursor {
    pub chars: Seq<Char>,
    pub index: int,
}

impl Cursor {
    /// The source position (in bytes) of the cursor.
    pub open spec fn pos(&self) -> nat {
        chars_width(self.chars.take(self.index))
    }

    /// The same characters with the cursor at index `i`.
    pub open spec fn at(&self, i: int) -> Cursor {
        Cursor { chars: self.chars, index: i }
    }

    /// The source position (in bytes) of the character with index `i`.
    pub open spec fn pos_at(&self, i: int) -> nat {
        chars_width(self.chars.take(i))
    }

    /// The source position (in bytes) of the end.
    pub open spec fn end_pos(&self) -> nat {
        chars_width(self.chars)
    }

    /// The characters from the cursor on.
    pub open spec fn rest(&self) -> Seq<Char> {
        self.chars.skip(self.index)
    }
}

/// A cursor over a sequence of pattern characters.
pub struct Reader {
    pub chars: Vec<Char>,
    pub index: usize,
}

impl View for Reader {
    type V = Cursor;

    open spec fn view(&self) -> Cursor {
        Cursor { chars: self.chars@, index: self.index as int }
    }
}

impl Reader {
    /// The cursor lies within the characters and every source position fits in `usize`.
    pub open spec fn wf(&self) -> bool {
        &&& self.index <= self.chars@.len()
        &&& chars_width(self.chars@) <= usize::MAX
    }

    /// The source position (in bytes) of the cursor.
    pub open spec fn pos(&self) -> nat {
        chars_width(self.chars@.take(self.index as int))
    }

    /// The source position (in bytes) of the character with index `i`.
    pub open spec fn pos_at(&self, i: int) -> nat {
        chars_width(self.chars@.take(i))
    }

    /// The source position (in bytes) of the end.
    pub open spec fn end_pos(&self) -> nat {
        chars_width(self.chars@)
    }

    /// The characters from the cursor on.
    pub open spec fn rest(&self) -> Seq<Char> {
        self.chars@.skip(self.index as int)
    }

    /// A reader positioned at the first of `chars`.
    pub fn new(chars: Vec<Char>) -> (r: Reader)
        requires
            chars_width(chars@) <= usize::MAX,
        ensures
            r.wf(),
            r.chars@ == chars@,
            r.index == 0,
    {
        Reader { chars, index: 0 }
    }

    /// A reader over the characters of `input`, each written as itself.
    pub fn from(input: &str) -> (r: Reader)
        requires
            chars_width(raw_chars(input@)) <= usize::MAX,
        ensures
            r.wf(),
            r.chars@ == raw_chars(input@),
            r.index == 0,
    {
        let source = crate::text::chars_of(input);
        let mut chars: Vec<Char> = Vec::new();
        let mut i: usize = 0;
        assert(chars@ =~= raw_chars(source@.take(0)));
        while i < source.len()
            invariant
                i <= source@.len(),
                source@ == input@,
                chars@ =~= raw_chars(source@.take(i as int)),
            decreases source.len() - i,
        {
            chars.push(Char::Raw(source[i]));
            proof {
                assert(source@.take(i + 1) =~= source@.take(i as int).push(source@[i as int]));
                lemma_raw_chars_push(source@.take(i as int), source@[i as int]);
            }
            i = i + 1;
        }
        assert(source@.take(i as int) =~= source@);
        Reader { chars, index: 0 }
    }

    proof fn lemma_pos_bounded(&self)
        requires
            self.wf(),
        ensures
            self.pos() <= self.end_pos(),
    {
        lemma_chars_width_prefix(self.chars@, self.index as int, self.chars@.len() as int);
        assert(self.chars@.take(self.chars@.len() as int) =~= self.chars@);
    }

    /// The source position (in bytes) of the cursor.
    pub fn position(&self) -> (p: usize)
        requires
            self.wf(),
        ensures
            p == self.pos(),
            p <= self.end_pos(),
    {
        proof {
            self.lemma_pos_bounded();
        }
        let prefix = slice_subrange(self.chars.as_slice(), 0, self.index);
        assert(prefix@ =~= self.chars@.take(self.index as int));
        Chars::from(prefix).len_utf8()
    }

    /// The source position (in bytes) of the end.
    pub fn end(&self) -> (p: usize)
        requires
            self.wf(),
        ensures
            p == self.end_pos(),
    {
        Chars::from(self.chars.as_slice()).len_utf8()
    }

    /// Moves the cursor one character forward, unless it is at the end.
    pub fn seek(&mut self)
        requires
            old(self).wf(),
        ensures
            final(self).wf(),
            final(self).chars == old(self).chars,
            final(self).index == if old(self).index < old(self).chars@.len() {
                old(self).index + 1
            } else {
                old(self).index as int
            },
    {
        if self.index < self.chars.len() {
            self.index = self.index + 1;
        }
    }

    /// Moves the cursor to index `index`, or to the end when that lies beyond it.
    fn seek_to(&mut self, index: usize)
        requires
            old(self).wf(),
        ensures
            final(self).wf(),
            final(self).chars == old(self).chars,
            final(self).index == if index < old(self).chars@.len() {
                index as int
            } else {
                old(self).chars@.len() as int
            },
    {
        self.index = if index < self.chars.len() {
            index
        } else {
            self.chars.len()
        };
    }

    /// Moves the cursor to the end.
    pub fn seek_to_end(&mut self)
        requires
            old(self).wf(),
        ensures
            final(self).wf(),
            final(self).chars == old(self).chars,
            final(self).index == old(self).chars@.len(),
    {
        let end = self.chars.len();
        self.seek_to(end);
    }

    /// The character with index `index`, if any.
    fn peek_at(&self, index: usize) -> (c: Option<&Char>)
        ensures
            index < self.chars@.len() ==> c == Some(&self.chars@[index as int]),
            index >= self.chars@.len() ==> c is None,
    {
        if index < self.chars.len() {
            Some(&self.chars[index])
        } else {
            None
        }
    }

    /// The character under the cursor, if any.
    pub fn peek(&self) -> (c: Option<&Char>)
        requires
            self.wf(),
        ensures
            self.index < self.chars@.len() ==> c == Some(&self.chars@[self.index as int]),
            self.index >= self.chars@.len() ==> c is None,
    {
        self.peek_at(self.index)
    }

    /// The value of the character under the cursor, if any.
    pub fn peek_char(&self) -> (c: Option<char>)
        requires
            self.wf(),
        ensures
            self.index < self.chars@.len() ==> c == Some(self.chars@[self.index as int].value()),
            self.index >= self.chars@.len() ==> c is None,
    {
        if self.index < self.chars.len() {
            Some(self.chars[self.index].as_char())
        } else {
            None
        }
    }

    /// The characters from index `index` on.
    fn peek_to_end_at(&self, index: usize) -> (r: Chars<'_>)
        requires
            index <= self.chars@.len(),
        ensures
            r.0@ == self.chars@.skip(index as int),
    {
        let s = slice_subrange(self.chars.as_slice(), index, self.chars.len());
        Chars::from(s)
    }

    /// The characters from the cursor on, without moving it.
    pub fn peek_to_end(&self) -> (r: Chars<'_>)
        requires
            self.wf(),
        ensures
            r.0@ == self.rest(),
    {
        self.peek_to_end_at(self.index)
    }

    /// The character under the cursor, if any; the cursor then moves past it.
    pub fn read(&mut self) -> (c: Option<Char>)
        requires
            old(self).wf(),
        ensures
            final(self).wf(),
            final(self).chars == old(self).chars,
            old(self).index < old(self).chars@.len() ==> c == Some(
                old(self).chars@[old(self).index as int],
            ) && final(self).index == old(self).index + 1,
            old(self).index >= old(self).chars@.len() ==> c is None && final(self).index
                == old(self).index,
    {
        if self.index < self.chars.len() {
            let c = self.chars[self.index];
            self.index = self.index + 1;
            Some(c)
        } else {
            None
        }
    }

    /// The value of the character under the cursor, if any; the cursor then moves past it.
    pub fn read_char(&mut self) -> (c: Option<char>)
        requires
            old(self).wf(),
        ensures
            final(self).wf(),
            final(self).chars == old(self).chars,
            old(self).index < old(self).chars@.len() ==> c == Some(
                old(self).chars@[old(self).index as int].value(),
            ) && final(self).index == old(self).index + 1,
            old(self).index >= old(self).chars@.len() ==> c is None && final(self).index
                == old(self).index,
    {
        match self.read() {
            Some(c) => Some(c.as_char()),
            None => None,
        }
    }

    /// Moves past the character under the cursor when its value is `expected`.
    pub fn read_expected(&mut self, expected: char) -> (r: bool)
        requires
            old(self).wf(),
        ensures
            final(self).wf(),
            final(self).chars == old(self).chars,
            r == (old(self).index < old(self).chars@.len() && old(self).chars@[old(
                self,
            ).index as int].value() == expected),
            final(self).index == if r {
                old(self).index + 1
            } else {
                old(self).index as int
            },
    {
        match self.peek_char() {
            Some(value) => {
                if value == expected {
                    self.seek();
                    true
                } else {
                    false
                }
            },
            None => false,
        }
    }

    /// The characters from the cursor on; the cursor then moves to the end.
    pub fn read_to_end(&mut self) -> (r: Vec<Char>)
        requires
            old(self).wf(),
        ensures
            final(self).wf(),
            final(self).chars == old(self).chars,
            final(self).index == old(self).chars@.len(),
            r@ == old(self).rest(),
    {
        let s = slice_subrange(self.chars.as_slice(), self.index, self.chars.len());
        let r = vstd::slice::slice_to_vec(s);
        self.index = self.chars.len();
        r
    }

    /// The characters from the cursor up to the first one whose value is that of
    /// `delimiter` (the delimiter is consumed but not returned), or all of them
    /// when there is none.
    pub fn read_until(&mut self, delimiter: &Char) -> (r: Vec<Char>)
        requires
            old(self).wf(),
        ensures
            final(self).wf(),
            final(self).chars == old(self).chars,
            ({
                let rest = old(self).rest();
                let d = delimiter.value();
                match first_with_value(rest, d) {
                    Some(k) => r@ == rest.take(k) && final(self).index == old(self).index + k + 1,
                    None => r@ == rest && final(self).index == old(self).chars@.len(),
                }
            }),
    {
        let ghost rest = self.rest();
        let d = delimiter.as_char();
        let mut i = self.index;
        while i < self.chars.len()
            invariant
                self.wf(),
                self.chars == old(self).chars,
                self.index == old(self).index,
                rest == self.rest(),
                d == delimiter.value(),
                self.index <= i <= self.chars@.len(),
                forall|j: int| self.index <= j < i ==> #[trigger] self.chars@[j].value() != d,
            decreases self.chars.len() - i,
        {
            if self.chars[i].as_char() == d {
                let start = self.index;
                let s = slice_subrange(self.chars.as_slice(), start, i);
                let r = vstd::slice::slice_to_vec(s);
                self.index = i + 1;
                proof {
                    let k = i - start;
                    assert(old(self).index == start);
                    assert forall|j: int| 0 <= j < k implies #[trigger] rest[j].value() != d by {
                        assert(rest[j] == self.chars@[start + j]);
                    }
                    assert(rest[k] == self.chars@[i as int]);
                    lemma_first_with_value(rest, d, k);
                    assert(r@ =~= rest.take(k));
                }
                return r;
            }
            i = i + 1;
        }
        proof {
            assert forall|j: int| 0 <= j < rest.len() implies #[trigger] rest[j].value() != d by {
                assert(rest[j] == self.chars@[self.index + j]);
            }
            lemma_first_with_value_none(rest, d);
        }
        self.read_to_end()
    }
}

/// The index of the first item of `s` whose value is `d`, if there is one.
pub open spec fn first_with_value(s: Seq<Char>, d: char) -> Option<int>
    decreases s.len(),
{
    if s.len() == 0 {
        None
    } else if s[0].value() == d {
        Some(0)
    } else {
        match first_with_value(s.drop_first(), d) {
            Some(k) => Some(k + 1),
            None => None,
        }
    }
}

/// `k` is the first index whose item has value `d`.
pub proof fn lemma_first_with_value(s: Seq<Char>, d: char, k: int)
    requires
        0 <= k < s.len(),
        s[k].value() == d,
        forall|j: int| 0 <= j < k ==> #[trigger] s[j].value() != d,
    ensures
        first_with_value(s, d) == Some(k),
    decreases k,
{
    if k > 0 {
        assert forall|j: int| 0 <= j < k - 1 implies #[trigger] s.drop_first()[j].value() != d by {
            assert(s.drop_first()[j] == s[j + 1]);
        }
        lemma_first_with_value(s.drop_first(), d, k - 1);
    }
}

/// No item has value `d`.
pub proof fn lemma_first_with_value_none(s: Seq<Char>, d: char)
    requires
        forall|j: int| 0 <= j < s.len() ==> #[trigger] s[j].value() != d,
    ensures
        first_with_value(s, d) is None,
    decreases s.len(),
{
    if s.len() > 0 {
        assert forall|j: int| 0 <= j < s.len() - 1 implies #[trigger] s.drop_first()[j].value()
            != d by {
            assert(s.drop_first()[j] == s[j + 1]);
        }
        lemma_first_with_value_none(s.drop_first(), d);
    }
}

/// What `first_with_value` finds has value `d`, and nothing before it has.
pub proof fn lemma_first_with_value_props(s: Seq<Char>, d: char)
    ensures
        first_with_value(s, d) matches Some(k) ==> 0 <= k < s.len() && s[k].value() == d && (
        forall|j: int| 0 <= j < k ==> #[trigger] s[j].value() != d),
        first_with_value(s, d) is None ==> forall|j: int|
            0 <= j < s.len() ==> #[trigger] s[j].value() != d,
    decreases s.len(),
{
    if s.len() > 0 {
        lemma_first_with_value_props(s.drop_first(), d);
        if s[0].value() != d {
            let t = s.drop_first();
            match first_with_value(t, d) {
                Some(k) => {
                    assert(s[k + 1] == t[k]);
                    assert forall|j: int| 0 <= j < k + 1 implies #[trigger] s[j].value() != d by {
                        if j > 0 {
                            assert(s[j] == t[j - 1]);
                        }
                    }
                },
                None => {
                    assert forall|j: int| 0 <= j < s.len() implies #[trigger] s[j].value() != d by {
                        if j > 0 {
                            assert(s[j] == t[j - 1]);
                        }
                    }
                },
            }
        }
    }
}

} // verus!
