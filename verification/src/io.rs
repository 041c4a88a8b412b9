use vstd::prelude::*;
use vstd::slice::slice_subrange;
use crate::text::{decimal, push_decimal, string_from_str};

verus! {

/// What ends each line of the input.
#[derive(Debug, Clone, Copy, PartialEq, Eq, Structural)]
pub enum Separator {
    Newline,
    Null,
    /// Any other byte.
    Byte(u8),
}

/// A line without its line ending: a final line feed goes, and then a carriage return
/// before it.
pub open spec fn trimmed_newline(line: Seq<u8>) -> Seq<u8> {
    if line.len() > 0 && line.last() == 10u8 {
        let rest = line.drop_last();
        if rest.len() > 0 && rest.last() == 13u8 {
            rest.drop_last()
        } else {
            rest
        }
    } else {
        line
    }
}

/// A line without a final null byte.
pub open spec fn trimmed_null(line: Seq<u8>) -> Seq<u8> {
    if line.len() > 0 && line.last() == 0u8 {
        line.drop_last()
    } else {
        line
    }
}

/// A line without a final `byte`.
pub open spec fn trimmed_byte(line: Seq<u8>, byte: u8) -> Seq<u8> {
    if line.len() > 0 && line.last() == byte {
        line.drop_last()
    } else {
        line
    }
}

impl Separator {
    /// The byte that ends a line.
    pub open spec fn byte(self) -> u8 {
        match self {
            Separator::Newline => 10u8,
            Separator::Null => 0u8,
            Separator::Byte(b) => b,
        }
    }

    /// A line without its ending.
    pub open spec fn trimmed(self, line: Seq<u8>) -> Seq<u8> {
        match self {
            Separator::Newline => trimmed_newline(line),
            Separator::Null => trimmed_null(line),
            Separator::Byte(b) => trimmed_byte(line, b),
        }
    }

    /// The byte that ends a line.
    pub fn as_byte(self) -> (b: u8)
        ensures
            b == self.byte(),
    {
        match self {
            Separator::Newline => 10u8,
            Separator::Null => 0u8,
            Separator::Byte(b) => b,
        }
    }

    /// Applies the trimming that goes with this separator to a line.
    pub fn trim_fn(self, line: &[u8]) -> (r: &[u8])
        ensures
            r@ == self.trimmed(line@),
    {
        match self {
            Separator::Newline => trim_newline(line),
            Separator::Null => trim_null(line),
            Separator::Byte(b) => trim_byte(line, b),
        }
    }
}

/// Removes a final line feed, and then a carriage return before it.
pub fn trim_newline(line: &[u8]) -> (r: &[u8])
    ensures
        r@ == trimmed_newline(line@),
{
    let mut line = line;
    let n = line.len();
    if n > 0 && line[n - 1] == 10u8 {
        line = slice_subrange(line, 0, n - 1);
        let m = line.len();
        if m > 0 && line[m - 1] == 13u8 {
            line = slice_subrange(line, 0, m - 1);
        }
    }
    line
}

/// Removes a final null byte.
pub fn trim_null(line: &[u8]) -> (r: &[u8])
    ensures
        r@ == trimmed_null(line@),
{
    let n = line.len();
    if n > 0 && line[n - 1] == 0u8 {
        slice_subrange(line, 0, n - 1)
    } else {
        line
    }
}

/// Removes a final `byte`.
pub fn trim_byte(line: &[u8], byte: u8) -> (r: &[u8])
    ensures
        r@ == trimmed_byte(line@, byte),
{
    let n = line.len();
    if n > 0 && line[n - 1] == byte {
        slice_subrange(line, 0, n - 1)
    } else {
        line
    }
}

/// The index of the first `needle` in `haystack`, if any.
pub open spec fn first_byte(haystack: Seq<u8>, needle: u8) -> Option<int>
    decreases haystack.len(),
{
    if haystack.len() == 0 {
        None
    } else if haystack[0] == needle {
        Some(0)
    } else {
        match first_byte(haystack.drop_first(), needle) {
            Some(i) => Some(i + 1),
            None => None,
        }
    }
}

/// What `first_byte` finds is `needle`, and nothing before it is.
pub proof fn lemma_first_byte(haystack: Seq<u8>, needle: u8)
    ensures
        first_byte(haystack, needle) matches Some(i) ==> 0 <= i < haystack.len() && haystack[i] == needle
            && forall|j: int| 0 <= j < i ==> haystack[j] != needle,
        first_byte(haystack, needle) is None ==> forall|j: int| 0 <= j < haystack.len() ==> haystack[j] != needle,
    decreases haystack.len(),
{
    if haystack.len() > 0 && haystack[0] != needle {
        let rest = haystack.drop_first();
        lemma_first_byte(rest, needle);
        assert forall|j: int| 1 <= j < haystack.len() implies haystack[j] == rest[j - 1] by {}
    }
}

/// A line that holds no separator (and, for newline separators, does not end with a
/// carriage return), followed by the separator and any further data, is what reading a
/// line gives back, and the data after the separator is what stays.
pub proof fn lemma_line_read_back(sep: Separator, line: Seq<u8>, rest: Seq<u8>)
    requires
        forall|j: int| 0 <= j < line.len() ==> line[j] != sep.byte(),
        sep == Separator::Newline && line.len() > 0 ==> line.last() != 13u8,
    ensures
        first_byte(line.push(sep.byte()) + rest, sep.byte()) == Some(line.len() as int),
        sep.trimmed((line.push(sep.byte()) + rest).take(line.len() as int + 1)) == line,
        (line.push(sep.byte()) + rest).skip(line.len() as int + 1) == rest,
{
    let data = line.push(sep.byte()) + rest;
    assert forall|j: int| 0 <= j < line.len() implies data[j] != sep.byte() by {
        assert(data[j] == line[j]);
    }
    assert(data[line.len() as int] == sep.byte());
    lemma_first_byte(data, sep.byte());
    let found = first_byte(data, sep.byte());
    if let Some(i) = found {
        if i < line.len() {
            assert(data[i] == line[i]);
        }
    }
    assert(data.take(line.len() as int + 1) =~= line.push(sep.byte()));
    assert(line.push(sep.byte()).drop_last() =~= line);
    assert(data.skip(line.len() as int + 1) =~= rest);
}

/// What reading lines one call after another hands out of the pending data `data`, until
/// no complete line is left: the lines, without their endings, and the data left.
pub open spec fn lines_in(data: Seq<u8>, sep: Separator) -> (Seq<Seq<u8>>, Seq<u8>)
    decreases data.len(),
{
    match first_byte(data, sep.byte()) {
        Some(i) => if 0 <= i < data.len() {
            let (lines, rest) = lines_in(data.skip(i + 1), sep);
            (seq![sep.trimmed(data.take(i + 1))] + lines, rest)
        } else {
            (Seq::empty(), data)
        },
        None => (Seq::empty(), data),
    }
}

/// The lines one after another.
pub open spec fn joined(lines: Seq<Seq<u8>>) -> Seq<u8>
    decreases lines.len(),
{
    if lines.len() == 0 {
        Seq::empty()
    } else {
        lines[0] + joined(lines.drop_first())
    }
}

/// Data made of lines that each end with the separator and hold it nowhere else, followed
/// by data without the separator, is handed out by reading line after line as exactly
/// those lines, each trimmed as the separator says, and what follows them is left.
pub proof fn lemma_lines_in(lines: Seq<Seq<u8>>, rest: Seq<u8>, sep: Separator)
    requires
        forall|k: int|
            0 <= k < lines.len() ==> (#[trigger] lines[k]).len() >= 1 && lines[k].last() == sep.byte() && forall|
                j: int,
            | 0 <= j < lines[k].len() - 1 ==> lines[k][j] != sep.byte(),
        forall|j: int| 0 <= j < rest.len() ==> rest[j] != sep.byte(),
    ensures
        lines_in(joined(lines) + rest, sep) == (lines.map_values(|l: Seq<u8>| sep.trimmed(l)), rest),
    decreases lines.len(),
{
    let data = joined(lines) + rest;
    let b = sep.byte();
    lemma_first_byte(data, b);
    if lines.len() == 0 {
        assert(data =~= rest);
        assert(lines.map_values(|l: Seq<u8>| sep.trimmed(l)) =~= Seq::<Seq<u8>>::empty());
    } else {
        let first = lines[0];
        let tail = lines.drop_first();
        let after = joined(tail) + rest;
        assert(data =~= first + after);
        let n = first.len() as int;
        assert(data[n - 1] == b);
        assert forall|j: int| 0 <= j < n - 1 implies data[j] != b by {
            assert(data[j] == first[j]);
        }
        assert(first_byte(data, b) == Some(n - 1));
        assert(data.take(n) =~= first);
        assert(data.skip(n) =~= after);
        assert forall|k: int|
            0 <= k < tail.len() implies (#[trigger] tail[k]).len() >= 1 && tail[k].last() == b && forall|j: int|
                0 <= j < tail[k].len() - 1 ==> tail[k][j] != b by {
            assert(tail[k] == lines[k + 1]);
        }
        lemma_lines_in(tail, rest, sep);
        assert(lines.map_values(|l: Seq<u8>| sep.trimmed(l)) =~= seq![sep.trimmed(first)] + tail.map_values(
            |l: Seq<u8>| sep.trimmed(l),
        ));
    }
}

/// Input that arrives in two pieces, with lines read out of the first before the second
/// is added, yields the lines of the whole input: those of the first piece, then those that
/// its left-over data and the second piece make together; and what is left at the end is
/// what the whole input leaves. Taken piece after piece, the lines that successive reads
/// hand out are therefore those of all the input read so far.
pub proof fn lemma_lines_in_pieces(first: Seq<u8>, second: Seq<u8>, sep: Separator)
    ensures
        ({
            let (lines, left) = lines_in(first, sep);
            let (more, rest) = lines_in(left + second, sep);
            lines_in(first + second, sep) == (lines + more, rest)
        }),
    decreases first.len(),
{
    let b = sep.byte();
    let data = first + second;
    lemma_first_byte(first, b);
    lemma_first_byte(data, b);
    match first_byte(first, b) {
        Some(i) => {
            assert(data[i] == b);
            assert forall|j: int| 0 <= j < i implies data[j] != b by {
                assert(data[j] == first[j]);
            }
            if let Some(k) = first_byte(data, b) {
                if k < i {
                    assert(data[k] == first[k]);
                }
            }
            assert(first_byte(data, b) == Some(i));
            let tail = first.skip(i + 1);
            assert(data.take(i + 1) =~= first.take(i + 1));
            assert(data.skip(i + 1) =~= tail + second);
            lemma_lines_in_pieces(tail, second, sep);
            let (lines, left) = lines_in(tail, sep);
            let (more, rest) = lines_in(left + second, sep);
            assert(seq![sep.trimmed(first.take(i + 1))] + (lines + more) =~= (seq![
                sep.trimmed(first.take(i + 1)),
            ] + lines) + more);
        },
        None => {
            assert(lines_in(first, sep) == (Seq::<Seq<u8>>::empty(), first));
            assert(Seq::<Seq<u8>>::empty() + lines_in(data, sep).0 =~= lines_in(data, sep).0);
        },
    }
}

/// `memchr::memchr`: the index of the first occurrence of `needle` in `haystack`, if any.
#[verifier::external_body]
fn find_byte(needle: u8, haystack: &[u8]) -> (r: Option<usize>)
    ensures
        match first_byte(haystack@, needle) {
            Some(i) => r == Some(i as usize),
            None => r is None,
        },
{
    memchr::memchr(needle, haystack)
}

/// Splits input into lines through a buffer of fixed size. The caller fills the buffer
/// from the input when [`LineReader::read_line`] finds no complete line, and calls
/// [`LineReader::finish`] when the input ends.
pub struct LineReader {
    pub separator: Separator,
    pub buf: Vec<u8>,
    /// Start of the data not handed out yet.
    pub start: usize,
    /// End of the data in the buffer.
    pub end: usize,
}

/// What the end of the input leaves.
pub enum Finish {
    /// Nothing was left.
    Done,
    /// The last line, which has no line ending.
    Line(Vec<u8>),
    /// The last line does not fit into the buffer.
    TooLong(String),
}

impl LineReader {
    /// The buffer holds its data within its bounds.
    pub open spec fn wf(&self) -> bool {
        self.start <= self.end <= self.buf@.len()
    }

    /// The data read but not handed out yet.
    pub open spec fn pending(&self) -> Seq<u8> {
        self.buf@.subrange(self.start as int, self.end as int)
    }

    /// A reader with an empty buffer of `buf_size` bytes.
    pub fn new(separator: Separator, buf_size: usize) -> (r: LineReader)
        ensures
            r.wf(),
            r.pending() == Seq::<u8>::empty(),
            r.buf@.len() == buf_size,
            r.separator == separator,
    {
        let buf = vec![0u8; buf_size];
        LineReader { separator, buf, start: 0, end: 0 }
    }

    /// The next complete line of the data in the buffer, without its ending. When there is
    /// none, the data moves to the start of the buffer to leave room for more.
    pub fn read_line(&mut self) -> (r: Option<Vec<u8>>)
        requires
            old(self).wf(),
        ensures
            final(self).wf(),
            final(self).separator == old(self).separator,
            final(self).buf@.len() == old(self).buf@.len(),
            match first_byte(old(self).pending(), old(self).separator.byte()) {
                Some(i) => r matches Some(line) && line@ == old(self).separator.trimmed(
                    old(self).pending().take(i + 1),
                ) && final(self).pending() == old(self).pending().skip(i + 1),
                None => r is None && final(self).pending() == old(self).pending() && final(self).start == 0,
            },
            match r {
                Some(line) => lines_in(old(self).pending(), old(self).separator) == (
                    seq![line@] + lines_in(final(self).pending(), old(self).separator).0,
                    lines_in(final(self).pending(), old(self).separator).1,
                ),
                None => lines_in(old(self).pending(), old(self).separator) == (
                    Seq::<Seq<u8>>::empty(),
                    old(self).pending(),
                ),
            },
    {
        let ghost pending = self.pending();
        let data = slice_subrange(self.buf.as_slice(), self.start, self.end);
        proof {
            lemma_first_byte(pending, self.separator.byte());
        }
        match find_byte(self.separator.as_byte(), data) {
            Some(pos) => {
                let whole = slice_subrange(data, 0, pos + 1);
                let line = vstd::slice::slice_to_vec(self.separator.trim_fn(whole));
                self.start = self.start + pos + 1;
                assert(self.pending() =~= pending.skip(pos + 1));
                Some(line)
            },
            None => {
                if self.start > 0 {
                    self.compact();
                }
                None
            },
        }
    }

    /// Moves the pending data to the start of the buffer.
    fn compact(&mut self)
        requires
            old(self).wf(),
        ensures
            final(self).wf(),
            final(self).separator == old(self).separator,
            final(self).buf@.len() == old(self).buf@.len(),
            final(self).start == 0,
            final(self).pending() == old(self).pending(),
    {
        let ghost pending = self.pending();
        let count = self.end - self.start;
        let mut k: usize = 0;
        while k < count
            invariant
                self.separator == old(self).separator,
                self.start == old(self).start,
                self.end == old(self).end,
                self.start <= self.end <= self.buf@.len(),
                count == self.end - self.start,
                self.buf@.len() == old(self).buf@.len(),
                k <= count,
                pending == old(self).buf@.subrange(self.start as int, self.end as int),
                forall|j: int| 0 <= j < k ==> self.buf@[j] == pending[j],
                forall|j: int| k <= j < count ==> self.buf@[self.start + j] == pending[j],
            decreases count - k,
        {
            let b = self.buf[self.start + k];
            self.buf.set(k, b);
            k = k + 1;
        }
        self.end = count;
        self.start = 0;
        assert(self.pending() =~= pending);
    }

    /// Room left at the end of the buffer for more data.
    pub fn free_space(&self) -> (n: usize)
        requires
            self.wf(),
        ensures
            n == self.buf@.len() - self.end,
    {
        self.buf.len() - self.end
    }

    /// Appends data read from the input to the buffer. The lines still to be handed out are
    /// then those that were pending, followed by those that the data left over and the new
    /// data make together.
    pub fn fill(&mut self, data: &[u8])
        requires
            old(self).wf(),
            data@.len() <= old(self).buf@.len() - old(self).end,
        ensures
            final(self).wf(),
            final(self).separator == old(self).separator,
            final(self).buf@.len() == old(self).buf@.len(),
            final(self).start == old(self).start,
            final(self).pending() == old(self).pending() + data@,
            ({
                let (lines, left) = lines_in(old(self).pending(), old(self).separator);
                let (more, rest) = lines_in(left + data@, old(self).separator);
                lines_in(final(self).pending(), old(self).separator) == (lines + more, rest)
            }),
    {
        let ghost pending = self.pending();
        proof {
            lemma_lines_in_pieces(pending, data@, self.separator);
        }
        let size = self.buf.len();
        let mut k: usize = 0;
        while k < data.len()
            invariant
                size == self.buf@.len(),
                self.separator == old(self).separator,
                self.start == old(self).start,
                self.end == old(self).end,
                self.start <= self.end <= self.buf@.len(),
                self.buf@.len() == old(self).buf@.len(),
                data@.len() <= self.buf@.len() - self.end,
                k <= data@.len(),
                pending == old(self).pending(),
                forall|j: int| self.start <= j < self.end ==> self.buf@[j] == old(self).buf@[j],
                forall|j: int| 0 <= j < k ==> self.buf@[self.end + j] == data@[j],
            decreases data.len() - k,
        {
            self.buf.set(self.end + k, data[k]);
            k = k + 1;
        }
        self.end = self.end + data.len();
        assert(self.pending() =~= pending + data@);
    }

    /// What is left when the input has ended: nothing, a last line without an ending, or
    /// a line too long for the buffer.
    pub fn finish(&mut self) -> (r: Finish)
        requires
            old(self).wf(),
            old(self).start == 0,
        ensures
            final(self).wf(),
            final(self).separator == old(self).separator,
            final(self).buf@.len() == old(self).buf@.len(),
            old(self).end == 0 ==> r is Done,
            0 < old(self).end < old(self).buf@.len() ==> (r matches Finish::Line(line) && line@ == old(
                self,
            ).pending() && final(self).pending() == Seq::<u8>::empty()),
            old(self).end > 0 && old(self).end == old(self).buf@.len() ==> (r matches Finish::TooLong(message)
                && message@ == "could not fetch line longer than '"@ + decimal(old(self).buf@.len()) + "' bytes"@),
    {
        if self.end == 0 {
            Finish::Done
        } else if self.end < self.buf.len() {
            let remainder = vstd::slice::slice_to_vec(slice_subrange(self.buf.as_slice(), self.start, self.end));
            self.start = self.end;
            Finish::Line(remainder)
        } else {
            let mut message = string_from_str("could not fetch line longer than '");
            push_decimal(&mut message, self.buf.len() as u128);
            message.append("' bytes");
            Finish::TooLong(message)
        }
    }
}

/// Reads a delimiter given as text: it must be one character of one byte.
pub fn parse_single_byte_char(string: &str) -> (r: std::result::Result<u8, &'static str>)
    ensures
        string@.len() != 1 ==> (r matches Err(m) && m@ == "value must be a single character"@),
        string@.len() == 1 && (string@[0] as u32) >= 128 ==> (r matches Err(m) && m@
            == "multi-byte characters are not supported"@),
        string@.len() == 1 && (string@[0] as u32) < 128 ==> r == Ok::<u8, &'static str>(
            string@[0] as u32 as u8,
        ),
{
    let chars = crate::text::chars_of(string);
    if chars.len() != 1 {
        Err("value must be a single character")
    } else {
        let code = chars[0] as u32;
        if code >= 128 {
            Err("multi-byte characters are not supported")
        } else {
            Ok(code as u8)
        }
    }
}

} // verus!
