use vstd::prelude::*;
use crate::chars::{char_len_utf8, text_width};
use crate::text::{chars_of, push_char, string_from_chars, string_from_str};

verus! {

/// Marks an input value in diff output.
pub const DIFF_IN: char = '<';

/// Marks an output value in diff output.
pub const DIFF_OUT: char = '>';

/// How results are written.
#[derive(Debug, Clone, Copy, PartialEq, Eq, Structural)]
pub enum Mode {
    /// Each output value followed by the terminator.
    Standard,
    /// Output values separated by the terminator, with none after the last.
    StandardNoEnd,
    /// Each input value and output value, marked and followed by the terminator.
    Diff,
    /// `input -> output` in colors, one per line.
    Pretty,
    /// One JSON object per line with the input and output value.
    JsonLines,
}

/// A color of pretty output.
#[derive(Debug, Clone, Copy, PartialEq, Eq, Structural)]
pub enum Color {
    Blue,
    Green,
}

/// One step of writing a result.
#[derive(Debug, PartialEq)]
pub enum Piece {
    Text(String),
    SetColor(Color),
    ResetColor,
    Flush,
}

/// The mathematical content of a [`Piece`].
pub enum PieceView {
    Text(Seq<char>),
    SetColor(Color),
    ResetColor,
    Flush,
}

/// A piece by view.
pub open spec fn piece_view(p: Piece) -> PieceView {
    match p {
        Piece::Text(t) => PieceView::Text(t@),
        Piece::SetColor(c) => PieceView::SetColor(c),
        Piece::ResetColor => PieceView::ResetColor,
        Piece::Flush => PieceView::Flush,
    }
}

/// Pieces by view.
pub open spec fn pieces_view(pieces: Seq<Piece>) -> Seq<PieceView> {
    pieces.map_values(|p: Piece| piece_view(p))
}

/// A flush, when one is needed.
pub open spec fn flush_if(needed: bool) -> Seq<PieceView> {
    if needed {
        seq![PieceView::Flush]
    } else {
        Seq::empty()
    }
}

/// What writing the result `output` for `input` takes, in each mode.
pub open spec fn pieces_for(
    mode: Mode,
    terminator: Seq<char>,
    first_result: bool,
    flush_needed: bool,
    input: Seq<char>,
    output: Seq<char>,
) -> Seq<PieceView> {
    match mode {
        Mode::Standard => seq![PieceView::Text(output + terminator)] + flush_if(flush_needed),
        Mode::StandardNoEnd => if first_result {
            seq![PieceView::Text(output)]
        } else {
            seq![PieceView::Text(terminator)] + flush_if(flush_needed) + seq![PieceView::Text(output)]
        },
        Mode::Diff => seq![
            PieceView::Text(seq![DIFF_IN] + input + terminator + seq![DIFF_OUT] + output + terminator),
        ] + flush_if(flush_needed),
        Mode::Pretty => seq![
            PieceView::SetColor(Color::Blue),
            PieceView::Text(input),
            PieceView::ResetColor,
            PieceView::Text(" -> "@),
            PieceView::SetColor(Color::Green),
            PieceView::Text(output + seq!['\n']),
        ],
        Mode::JsonLines => seq![
            PieceView::Text("{\"in\":\""@ + input + "\",\"out\":\""@ + output + "\"}\n"@),
        ],
    }
}

/// Writes results one after another.
pub struct Values {
    pub mode: Mode,
    pub terminator: String,
    pub first_result: bool,
    pub flush_needed: bool,
}

impl Values {
    /// A writer for the given mode and terminator; output is flushed after each result
    /// unless the terminator ends with a line feed.
    pub fn new(mode: Mode, terminator: &str) -> (v: Values)
        ensures
            v.mode == mode,
            v.terminator@ == terminator@,
            v.first_result,
            v.flush_needed == !(terminator@.len() > 0 && terminator@.last() == '\n'),
    {
        let chars = chars_of(terminator);
        let n = chars.len();
        let flush_needed = !(n > 0 && chars[n - 1] == '\n');
        Values { mode, terminator: string_from_str(terminator), first_result: true, flush_needed }
    }

    /// What writing the result `output` for `input` takes.
    pub fn write(&mut self, input_value: &str, output_value: &str) -> (r: Vec<Piece>)
        ensures
            pieces_view(r@) == pieces_for(
                old(self).mode,
                old(self).terminator@,
                old(self).first_result,
                old(self).flush_needed,
                input_value@,
                output_value@,
            ),
            final(self).mode == old(self).mode,
            final(self).terminator@ == old(self).terminator@,
            final(self).flush_needed == old(self).flush_needed,
            final(self).first_result == (old(self).first_result && old(self).mode != Mode::StandardNoEnd),
    {
        let ghost expected = pieces_for(
            self.mode,
            self.terminator@,
            self.first_result,
            self.flush_needed,
            input_value@,
            output_value@,
        );
        let mut pieces: Vec<Piece> = Vec::new();
        match self.mode {
            Mode::Standard => {
                let mut text = string_from_str(output_value);
                text.append(self.terminator.as_str());
                pieces.push(Piece::Text(text));
                assert(pieces_view(pieces@) =~= seq![PieceView::Text(output_value@ + self.terminator@)]);
                self.push_flush_if_needed(&mut pieces);
                assert(pieces_view(pieces@) =~= expected);
            },
            Mode::StandardNoEnd => {
                if self.first_result {
                    self.first_result = false;
                    pieces.push(Piece::Text(string_from_str(output_value)));
                    assert(pieces_view(pieces@) =~= expected);
                } else {
                    pieces.push(Piece::Text(string_from_str(self.terminator.as_str())));
                    assert(pieces_view(pieces@) =~= seq![PieceView::Text(self.terminator@)]);
                    self.push_flush_if_needed(&mut pieces);
                    let ghost before = pieces_view(pieces@);
                    pieces.push(Piece::Text(string_from_str(output_value)));
                    assert(pieces_view(pieces@) =~= before + seq![PieceView::Text(output_value@)]);
                    assert(pieces_view(pieces@) =~= expected);
                }
            },
            Mode::Diff => {
                let mut text = String::new();
                push_char(&mut text, DIFF_IN);
                assert(text@ =~= seq![DIFF_IN]);
                text.append(input_value);
                text.append(self.terminator.as_str());
                let ghost head = text@;
                push_char(&mut text, DIFF_OUT);
                assert(text@ =~= head + seq![DIFF_OUT]);
                text.append(output_value);
                text.append(self.terminator.as_str());
                assert(text@ =~= seq![DIFF_IN] + input_value@ + self.terminator@ + seq![DIFF_OUT] + output_value@ + self.terminator@);
                pieces.push(Piece::Text(text));
                assert(pieces_view(pieces@) =~= seq![
                    PieceView::Text(seq![DIFF_IN] + input_value@ + self.terminator@ + seq![DIFF_OUT] + output_value@ + self.terminator@),
                ]);
                self.push_flush_if_needed(&mut pieces);
                assert(pieces_view(pieces@) =~= expected);
            },
            Mode::Pretty => {
                pieces.push(Piece::SetColor(Color::Blue));
                pieces.push(Piece::Text(string_from_str(input_value)));
                pieces.push(Piece::ResetColor);
                pieces.push(Piece::Text(string_from_str(" -> ")));
                pieces.push(Piece::SetColor(Color::Green));
                let mut text = string_from_str(output_value);
                push_char(&mut text, '\n');
                assert(text@ =~= output_value@ + seq!['\n']);
                pieces.push(Piece::Text(text));
                assert(pieces_view(pieces@) =~= expected);
            },
            Mode::JsonLines => {
                let mut text = string_from_str("{\"in\":\"");
                text.append(input_value);
                text.append("\",\"out\":\"");
                text.append(output_value);
                text.append("\"}\n");
                pieces.push(Piece::Text(text));
                assert(pieces_view(pieces@) =~= expected);
            },
        }
        pieces
    }

    /// Adds a flush when the terminator does not end lines.
    fn push_flush_if_needed(&self, pieces: &mut Vec<Piece>)
        ensures
            pieces_view(final(pieces)@) == pieces_view(old(pieces)@) + flush_if(self.flush_needed),
    {
        if self.flush_needed {
            pieces.push(Piece::Flush);
        }
        assert(pieces_view(pieces@) =~= pieces_view(old(pieces)@) + flush_if(self.flush_needed));
    }
}

/// How a byte range of a text is shown: the text before it, the range itself and the text
/// after it, then as many spaces as characters before it and as many markers as characters
/// in it (at least one).
#[derive(Debug, PartialEq)]
pub struct Highlight {
    pub before: String,
    pub marked: String,
    pub after: String,
    pub spaces: usize,
    pub markers: usize,
}

/// Character index `k` of `s` starts at byte `b`.
pub open spec fn starts_at(s: Seq<char>, k: int, b: nat) -> bool {
    0 <= k <= s.len() && text_width(s.take(k)) == b
}

/// The highlight of characters `k1` to `k2` of `s`.
pub open spec fn highlight_of(s: Seq<char>, k1: int, k2: int, h: Highlight) -> bool {
    &&& h.before@ == s.take(k1)
    &&& h.marked@ == s.subrange(k1, k2)
    &&& h.after@ == s.skip(k2)
    &&& h.spaces == k1
    &&& h.markers == if k2 - k1 > 1 {
        k2 - k1
    } else {
        1
    }
}

/// Each further character adds at least one byte.
pub proof fn lemma_width_grows(s: Seq<char>, i: int, j: int)
    requires
        0 <= i < j <= s.len(),
    ensures
        text_width(s.take(i)) < text_width(s.take(j)),
    decreases j - i,
{
    assert(s.take(j).drop_last() =~= s.take(j - 1));
    if i < j - 1 {
        lemma_width_grows(s, i, j - 1);
    }
}

/// The index of the character that starts at byte `b`, searching from index `from`.
fn find_boundary(chars: &Vec<char>, from: usize, from_width: usize, b: usize) -> (r: Option<usize>)
    requires
        from <= chars@.len(),
        from_width == text_width(chars@.take(from as int)),
        from_width <= b,
    ensures
        match r {
            Some(k) => from <= k <= chars@.len() && starts_at(chars@, k as int, b as nat),
            None => forall|k: int| #![trigger starts_at(chars@, k, b as nat)] from <= k ==> !starts_at(chars@, k, b as nat),
        },
{
    let mut i = from;
    let mut w = from_width;
    while i < chars.len() && w < b
        invariant
            from <= i <= chars@.len(),
            w == text_width(chars@.take(i as int)),
            from_width <= w,
            forall|k: int| from <= k < i ==> text_width(#[trigger] chars@.take(k)) < b,
        decreases chars.len() - i,
    {
        assert(chars@.take(i + 1).drop_last() =~= chars@.take(i as int));
        let c = char_len_utf8(chars[i]);
        if c > b - w {
            proof {
                assert forall|k: int| from <= k implies !starts_at(chars@, k, b as nat) by {
                    if k > i + 1 && k <= chars@.len() {
                        lemma_width_grows(chars@, i + 1, k);
                    }
                }
            }
            return None;
        }
        w = w + c;
        i = i + 1;
    }
    if w == b {
        Some(i)
    } else {
        proof {
            assert forall|k: int| from <= k implies !starts_at(chars@, k, b as nat) by {
                if k > i && k <= chars@.len() {
                    lemma_width_grows(chars@, i as int, k);
                }
            }
        }
        None
    }
}

/// How the bytes `start` to `end` of `string` are highlighted, or nothing when they do not
/// fall on character boundaries in that order.
pub fn highlight_range(string: &str, start: usize, end: usize) -> (r: Option<Highlight>)
    ensures
        match r {
            Some(h) => exists|k1: int, k2: int|
                #![trigger starts_at(string@, k1, start as nat), starts_at(string@, k2, end as nat)]
                k1 <= k2 && starts_at(string@, k1, start as nat) && starts_at(string@, k2, end as nat)
                    && highlight_of(string@, k1, k2, h),
            None => !(exists|k1: int, k2: int|
                #![trigger starts_at(string@, k1, start as nat), starts_at(string@, k2, end as nat)]
                k1 <= k2 && starts_at(string@, k1, start as nat) && starts_at(string@, k2, end as nat)),
        },
{
    let chars = chars_of(string);
    assert(chars@.take(0) =~= Seq::<char>::empty());
    let k1 = match find_boundary(&chars, 0, 0, start) {
        Some(k) => k,
        None => {
            return None;
        },
    };
    if end < start {
        proof {
            assert forall|a: int, b: int| a <= b && starts_at(string@, a, start as nat) implies !starts_at(string@, b, end as nat) by {
                if a < b && b <= string@.len() {
                    lemma_width_grows(string@, a, b);
                }
            }
        }
        return None;
    }
    let k2 = match find_boundary(&chars, k1, start, end) {
        Some(k) => k,
        None => {
            proof {
                assert forall|a: int, b: int| a <= b && starts_at(string@, a, start as nat) implies !starts_at(string@, b, end as nat) by {
                    if a != k1 as int && a <= string@.len() && k1 <= string@.len() {
                        if a < k1 {
                            lemma_width_grows(string@, a, k1 as int);
                        } else {
                            lemma_width_grows(string@, k1 as int, a);
                        }
                    }
                }
            }
            return None;
        },
    };
    let before = string_from_chars(vstd::slice::slice_subrange(chars.as_slice(), 0, k1));
    let marked = string_from_chars(vstd::slice::slice_subrange(chars.as_slice(), k1, k2));
    let after = string_from_chars(vstd::slice::slice_subrange(chars.as_slice(), k2, chars.len()));
    let count = k2 - k1;
    let markers = if count > 1 {
        count
    } else {
        1
    };
    let h = Highlight { before, marked, after, spaces: k1, markers };
    assert(highlight_of(string@, k1 as int, k2 as int, h));
    Some(h)
}

} // verus!
