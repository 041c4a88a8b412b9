use vstd::prelude::*;
use crate::chars::{Char, chars_width, lemma_chars_width_step};
use crate::filter::path::MAIN_SEPARATOR;
use crate::parse::{BaseResult, Error, ErrorKind, ErrorKindView, ErrorView, Parsed, Result, error_at};
use crate::reader::{Reader, raw_char, raw_chars};

verus! {

/// Starts an expression.
pub const EXPR_START: char = '{';
/// Ends an expression.
pub const EXPR_END: char = '}';
/// Separates the filters of an expression.
pub const PIPE: char = '|';
/// After the escape character: the platform's directory separator.
pub const DIR_SEPARATOR: char = '/';
/// After the escape character: a line feed.
pub const LINE_FEED: char = 'n';
/// After the escape character: a carriage return.
pub const CARRIAGE_RETURN: char = 'r';
/// After the escape character: a horizontal tab.
pub const HORIZONTAL_TAB: char = 't';
/// After the escape character: the null character.
pub const NULL: char = '0';

/// A unit of the pattern language.
#[derive(Debug, PartialEq)]
pub enum Token {
    /// A run of characters outside the three special ones.
    Raw(Vec<Char>),
    ExprStart,
    ExprEnd,
    Pipe,
}

/// The mathematical content of a [`Token`].
pub enum TokenView {
    Raw(Seq<Char>),
    ExprStart,
    ExprEnd,
    Pipe,
}

impl View for Token {
    type V = TokenView;

    open spec fn view(&self) -> TokenView {
        match self {
            Token::Raw(chars) => TokenView::Raw(chars@),
            Token::ExprStart => TokenView::ExprStart,
            Token::ExprEnd => TokenView::ExprEnd,
            Token::Pipe => TokenView::Pipe,
        }
    }
}

/// A token with the byte range of the pattern source that it was read from.
pub type ParsedToken = Parsed<Token>;

/// Whether `c` delimits raw characters.
pub open spec fn is_special(c: char) -> bool {
    c == EXPR_START || c == EXPR_END || c == PIPE
}

/// The character that the escape character followed by `c` stands for, if any.
pub open spec fn escaped_value(c: char, escape: char) -> Option<char> {
    if c == EXPR_START {
        Some(EXPR_START)
    } else if c == EXPR_END {
        Some(EXPR_END)
    } else if c == PIPE {
        Some(PIPE)
    } else if c == DIR_SEPARATOR {
        Some(MAIN_SEPARATOR)
    } else if c == LINE_FEED {
        Some('\n')
    } else if c == CARRIAGE_RETURN {
        Some('\r')
    } else if c == HORIZONTAL_TAB {
        Some('\t')
    } else if c == NULL {
        Some('\0')
    } else if c == escape {
        Some(c)
    } else {
        None
    }
}

/// The pattern character produced by the escape sequence `escape`, `v`, standing for `c`.
pub open spec fn escaped_item(c: char, escape: char, v: char) -> Char {
    Char::Escaped(c, [escape, v])
}

/// The byte offset of the character with index `i` of `s`.
pub open spec fn offset(s: Seq<Char>, i: int) -> nat {
    chars_width(s.take(i))
}

/// Reading raw characters of `s` from index `i` on, after `acc` was read: the characters
/// read, or the error of a malformed escape sequence, with the index where reading stopped.
pub open spec fn raw_run(s: Seq<Char>, escape: char, i: int, acc: Seq<Char>) -> (
    std::result::Result<Seq<Char>, ErrorView>,
    int,
)
    decreases s.len() - i,
{
    if i < 0 || i >= s.len() || is_special(s[i].value()) {
        (Ok(acc), i)
    } else if s[i].value() == escape {
        if i + 1 >= s.len() {
            (
                Err(error_at(ErrorKindView::UnterminatedEscapeSequence(escape), offset(s, i), offset(s, i + 1))),
                i + 1,
            )
        } else {
            let v = s[i + 1].value();
            match escaped_value(v, escape) {
                None => (
                    Err(error_at(ErrorKindView::UnknownEscapeSequence(escape, v), offset(s, i), offset(s, i + 2))),
                    i + 2,
                ),
                Some(c) => raw_run(s, escape, i + 2, acc.push(escaped_item(c, escape, v))),
            }
        }
    } else {
        raw_run(s, escape, i + 1, acc.push(raw_char(s[i].value())))
    }
}

/// Reading a token of `s` from index `i` on: the token (none at the end) with its byte
/// range, or an error, with the index where reading stopped.
pub open spec fn token_result(s: Seq<Char>, escape: char, i: int) -> (
    std::result::Result<Option<(TokenView, nat, nat)>, ErrorView>,
    int,
) {
    if i < 0 || i >= s.len() {
        (Ok(None), i)
    } else if s[i].value() == EXPR_START {
        (Ok(Some((TokenView::ExprStart, offset(s, i), offset(s, i + 1)))), i + 1)
    } else if s[i].value() == EXPR_END {
        (Ok(Some((TokenView::ExprEnd, offset(s, i), offset(s, i + 1)))), i + 1)
    } else if s[i].value() == PIPE {
        (Ok(Some((TokenView::Pipe, offset(s, i), offset(s, i + 1)))), i + 1)
    } else {
        match raw_run(s, escape, i, Seq::empty()) {
            (Ok(chars), j) => (Ok(Some((TokenView::Raw(chars), offset(s, i), offset(s, j)))), j),
            (Err(e), j) => (Err(e), j),
        }
    }
}

/// The mathematical content of the result of reading a token.
pub open spec fn token_view(r: Result<Option<ParsedToken>>) -> std::result::Result<
    Option<(TokenView, nat, nat)>,
    ErrorView,
> {
    match r {
        Ok(Some(t)) => Ok(Some((t.value@, t.range.start as nat, t.range.end as nat))),
        Ok(None) => Ok(None),
        Err(e) => Err(e@),
    }
}

/// Splits a pattern source into tokens.
pub struct Lexer {
    pub reader: Reader,
    pub escape: char,
}

impl Lexer {
    /// The reader is consistent and holds each character of the source as itself.
    pub open spec fn wf(&self) -> bool {
        &&& self.reader.wf()
        &&& forall|k: int| 0 <= k < self.reader.chars@.len() ==> #[trigger] self.reader.chars@[k] is Raw
    }

    /// A lexer at the start of `input`.
    pub fn new(input: &str, escape: char) -> (l: Lexer)
        requires
            chars_width(raw_chars(input@)) <= usize::MAX,
        ensures
            l.wf(),
            l.reader.chars@ == raw_chars(input@),
            l.reader.index == 0,
            l.escape == escape,
    {
        let reader = Reader::from(input);
        assert forall|k: int| 0 <= k < reader.chars@.len() implies #[trigger] reader.chars@[k] is Raw by {
            assert(reader.chars@[k] == raw_char(input@[k]));
        }
        Lexer { reader, escape }
    }

    /// Reads the next token. Nothing is read exactly at the end of the source, and the
    /// lexer then stays where it is. A token that is read starts where the lexer stood and
    /// ends where it stops, after it, so that successive tokens follow each other; `{`, `}`
    /// and `|` tokens span one byte; and the token after a raw token is never raw.
    pub fn read_token(&mut self) -> (r: Result<Option<ParsedToken>>)
        requires
            old(self).wf(),
        ensures
            (r matches Ok(None)) <==> old(self).reader.index == old(self).reader.chars@.len(),
            r matches Ok(None) ==> final(self).reader.index == old(self).reader.index,
            r matches Ok(Some(t)) ==> {
                &&& old(self).reader.index < final(self).reader.index
                &&& t.range.start == offset(old(self).reader.chars@, old(self).reader.index as int)
                &&& t.range.end == offset(old(self).reader.chars@, final(self).reader.index as int)
                &&& !(t.value is Raw) ==> t.range.end == t.range.start + 1
                &&& t.value is Raw ==> !(token_result(
                    old(self).reader.chars@,
                    old(self).escape,
                    final(self).reader.index as int,
                ).0 matches Ok(Some((TokenView::Raw(_), _, _))))
            },
            final(self).wf(),
            final(self).reader.chars == old(self).reader.chars,
            final(self).escape == old(self).escape,
            final(self).reader.index == token_result(
                old(self).reader.chars@,
                old(self).escape,
                old(self).reader.index as int,
            ).1,
            token_view(r) == token_result(old(self).reader.chars@, old(self).escape, old(self).reader.index as int).0,
            crate::parse::error_within(r, old(self).reader.end_pos()),
            r matches Ok(Some(t)) ==> t.range.start <= t.range.end <= old(self).reader.end_pos(),
    {
        proof {
            lemma_tokens_tile(self.reader.chars@, self.escape, self.reader.index as int);
        }
        let start = self.reader.position();
        let value = match self.reader.peek_char() {
            Some(c) => {
                if c == EXPR_START {
                    self.reader.seek();
                    Token::ExprStart
                } else if c == EXPR_END {
                    self.reader.seek();
                    Token::ExprEnd
                } else if c == PIPE {
                    self.reader.seek();
                    Token::Pipe
                } else {
                    match self.read_chars() {
                        Ok(chars) => Token::Raw(chars),
                        Err(error) => {
                            return Err(error);
                        },
                    }
                }
            },
            None => {
                return Ok(None);
            },
        };
        let end = self.reader.position();
        proof {
            crate::chars::lemma_chars_width_prefix(
                self.reader.chars@,
                old(self).reader.index as int,
                self.reader.index as int,
            );
        }
        Ok(Some(Parsed { value, range: start..end }))
    }

    /// Reads raw characters up to a special one or the end, resolving escape sequences.
    fn read_chars(&mut self) -> (r: Result<Vec<Char>>)
        requires
            old(self).wf(),
        ensures
            final(self).wf(),
            final(self).reader.chars == old(self).reader.chars,
            final(self).escape == old(self).escape,
            final(self).reader.index == raw_run(
                old(self).reader.chars@,
                old(self).escape,
                old(self).reader.index as int,
                Seq::empty(),
            ).1,
            match r {
                Ok(chars) => raw_run(old(self).reader.chars@, old(self).escape, old(self).reader.index as int, Seq::empty()).0
                    == Ok::<Seq<Char>, ErrorView>(chars@),
                Err(e) => raw_run(old(self).reader.chars@, old(self).escape, old(self).reader.index as int, Seq::empty()).0
                    == Err::<Seq<Char>, ErrorView>(e@),
            },
            crate::parse::error_within(r, old(self).reader.end_pos()),
            old(self).reader.index <= final(self).reader.index,
    {
        let ghost s = self.reader.chars@;
        let ghost i0 = self.reader.index as int;
        let ghost esc = self.escape;
        let mut chars: Vec<Char> = Vec::new();
        loop
            invariant
                self.wf(),
                self.reader.chars@ == s,
                self.reader.chars == old(self).reader.chars,
                self.escape == esc,
                esc == old(self).escape,
                s == old(self).reader.chars@,
                i0 == old(self).reader.index,
                raw_run(s, esc, i0, Seq::empty()) == raw_run(s, esc, self.reader.index as int, chars@),
                i0 <= self.reader.index,
            ensures
                self.reader.index >= s.len() || is_special(s[self.reader.index as int].value()),
            decreases s.len() - self.reader.index,
        {
            let i = self.reader.index;
            match self.reader.peek_char() {
                None => {
                    break;
                },
                Some(c) => {
                    if c == EXPR_START || c == EXPR_END || c == PIPE {
                        break;
                    } else if c == self.escape {
                        let start = self.reader.position();
                        self.reader.seek();
                        match self.read_escaped_char() {
                            Ok(ch) => {
                                chars.push(ch);
                            },
                            Err(kind) => {
                                let end = self.reader.position();
                                return Err(Error { kind, range: start..end });
                            },
                        }
                    } else {
                        chars.push(Char::Raw(c));
                        self.reader.seek();
                    }
                },
            }
        }
        Ok(chars)
    }

    /// Reads what follows the escape character.
    fn read_escaped_char(&mut self) -> (r: BaseResult<Char>)
        requires
            old(self).wf(),
        ensures
            final(self).wf(),
            final(self).reader.chars == old(self).reader.chars,
            final(self).escape == old(self).escape,
            old(self).reader.index < old(self).reader.chars@.len() ==> ({
                let v = old(self).reader.chars@[old(self).reader.index as int].value();
                &&& final(self).reader.index == old(self).reader.index + 1
                &&& match escaped_value(v, old(self).escape) {
                    Some(c) => r == Ok::<Char, ErrorKind>(escaped_item(c, old(self).escape, v)),
                    None => r matches Err(k) && k@ == ErrorKindView::UnknownEscapeSequence(old(self).escape, v),
                }
            }),
            old(self).reader.index >= old(self).reader.chars@.len() ==> (final(self).reader.index
                == old(self).reader.index && (r matches Err(k) && k@
                == ErrorKindView::UnterminatedEscapeSequence(old(self).escape))),
    {
        match self.reader.read_char() {
            Some(value) => {
                let escape_sequence = [self.escape, value];
                let escaped_value = if value == EXPR_START {
                    EXPR_START
                } else if value == EXPR_END {
                    EXPR_END
                } else if value == PIPE {
                    PIPE
                } else if value == DIR_SEPARATOR {
                    MAIN_SEPARATOR
                } else if value == LINE_FEED {
                    '\n'
                } else if value == CARRIAGE_RETURN {
                    '\r'
                } else if value == HORIZONTAL_TAB {
                    '\t'
                } else if value == NULL {
                    '\0'
                } else if value == self.escape {
                    value
                } else {
                    return Err(ErrorKind::UnknownEscapeSequence(escape_sequence));
                };
                Ok(Char::Escaped(escaped_value, escape_sequence))
            },
            None => Err(ErrorKind::UnterminatedEscapeSequence(self.escape)),
        }
    }
}

/// Reading raw characters stops within the source, and reads at least one character
/// when it starts on one that is not special.
pub proof fn lemma_raw_run_advances(s: Seq<Char>, escape: char, i: int, acc: Seq<Char>)
    requires
        0 <= i <= s.len(),
    ensures
        i <= raw_run(s, escape, i, acc).1 <= s.len(),
        i < s.len() && !is_special(s[i].value()) ==> i < raw_run(s, escape, i, acc).1,
    decreases s.len() - i,
{
    if i < s.len() && !is_special(s[i].value()) {
        if s[i].value() == escape {
            if i + 1 < s.len() {
                let v = s[i + 1].value();
                if let Some(c) = escaped_value(v, escape) {
                    lemma_raw_run_advances(s, escape, i + 2, acc.push(escaped_item(c, escape, v)));
                }
            }
        } else {
            lemma_raw_run_advances(s, escape, i + 1, acc.push(raw_char(s[i].value())));
        }
    }
}

/// A token read at index `i` ends after `i` and within the source.
pub proof fn lemma_token_advances(s: Seq<Char>, escape: char, i: int)
    requires
        0 <= i <= s.len(),
    ensures
        i <= token_result(s, escape, i).1 <= s.len(),
        token_result(s, escape, i).0 matches Ok(Some(_)) ==> i < token_result(s, escape, i).1,
{
    if i < s.len() {
        lemma_raw_run_advances(s, escape, i, Seq::empty());
    }
}

/// Appending a pattern character adds its width.
proof fn lemma_chars_width_push(acc: Seq<Char>, c: Char)
    ensures
        chars_width(acc.push(c)) == chars_width(acc) + c.width(),
{
    assert(acc.push(c).drop_last() =~= acc);
}

/// Raw characters read from a source whose characters are all written as themselves
/// take exactly the bytes they were read from.
pub proof fn lemma_raw_run_width(s: Seq<Char>, escape: char, i: int, acc: Seq<Char>)
    requires
        0 <= i <= s.len(),
        forall|k: int| 0 <= k < s.len() ==> #[trigger] s[k] is Raw,
    ensures
        raw_run(s, escape, i, acc).0 matches Ok(chars) ==> chars_width(chars) + offset(s, i)
            == chars_width(acc) + offset(s, raw_run(s, escape, i, acc).1),
    decreases s.len() - i,
{
    if i < s.len() && !is_special(s[i].value()) {
        if s[i].value() == escape {
            if i + 1 < s.len() {
                let v = s[i + 1].value();
                if let Some(c) = escaped_value(v, escape) {
                    let item = escaped_item(c, escape, v);
                    lemma_raw_run_width(s, escape, i + 2, acc.push(item));
                    lemma_chars_width_push(acc, item);
                    lemma_chars_width_step(s, i);
                    lemma_chars_width_step(s, i + 1);
                    assert(s[i] is Raw && s[i + 1] is Raw);
                }
            }
        } else {
            lemma_raw_run_width(s, escape, i + 1, acc.push(raw_char(s[i].value())));
            lemma_chars_width_push(acc, raw_char(s[i].value()));
            lemma_chars_width_step(s, i);
            assert(s[i] is Raw);
        }
    }
}

/// The characters of a raw token take exactly the bytes of its range.
pub proof fn lemma_token_width(s: Seq<Char>, escape: char, i: int)
    requires
        0 <= i <= s.len(),
        forall|k: int| 0 <= k < s.len() ==> #[trigger] s[k] is Raw,
    ensures
        token_result(s, escape, i).0 matches Ok(Some((TokenView::Raw(chars), start, end)))
            ==> start <= end && chars_width(chars) == end - start,
{
    if i < s.len() {
        lemma_raw_run_width(s, escape, i, Seq::empty());
        lemma_raw_run_advances(s, escape, i, Seq::empty());
        let j = raw_run(s, escape, i, Seq::empty()).1;
        crate::chars::lemma_chars_width_prefix(s, i, j);
    }
}

/// Reading raw characters without error stops at the end of the source or at a special
/// character.
proof fn lemma_raw_run_stops(s: Seq<Char>, escape: char, i: int, acc: Seq<Char>)
    requires
        0 <= i <= s.len(),
    ensures
        raw_run(s, escape, i, acc).0 is Ok ==> {
            let j = raw_run(s, escape, i, acc).1;
            j == s.len() || (0 <= j < s.len() && is_special(s[j].value()))
        },
    decreases s.len() - i,
{
    if i < s.len() && !is_special(s[i].value()) {
        if s[i].value() == escape {
            if i + 1 < s.len() {
                let v = s[i + 1].value();
                if let Some(c) = escaped_value(v, escape) {
                    lemma_raw_run_stops(s, escape, i + 2, acc.push(escaped_item(c, escape, v)));
                }
            }
        } else {
            lemma_raw_run_stops(s, escape, i + 1, acc.push(raw_char(s[i].value())));
        }
    }
}

/// Tokens read one after another tile the source. Reading at index `i` (the start of the
/// source or where the previous token ended) gives nothing exactly at the end of the
/// source, and reading there again gives nothing again. Otherwise a token that is read
/// starts at the byte offset of `i` and ends at that of the index where reading stopped,
/// which is after `i`, so the next token starts where it ends; `{`, `}` and `|` tokens
/// span one byte; and a raw token is never followed by another raw token.
pub proof fn lemma_tokens_tile(s: Seq<Char>, escape: char, i: int)
    requires
        0 <= i <= s.len(),
        forall|k: int| 0 <= k < s.len() ==> #[trigger] s[k] is Raw,
    ensures
        (token_result(s, escape, i).0 == Ok::<Option<(TokenView, nat, nat)>, ErrorView>(None)) <==> i == s.len(),
        i == s.len() ==> token_result(s, escape, i).1 == i,
        token_result(s, escape, i).0 matches Ok(Some((t, start, end))) ==> {
            let j = token_result(s, escape, i).1;
            &&& i < j <= s.len()
            &&& start == offset(s, i)
            &&& end == offset(s, j)
            &&& !(t is Raw) ==> end == start + 1
            &&& t is Raw ==> !(token_result(s, escape, j).0 matches Ok(Some((TokenView::Raw(_), _, _))))
        },
{
    lemma_token_advances(s, escape, i);
    if i < s.len() {
        lemma_chars_width_step(s, i);
        assert(s[i] is Raw);
        lemma_raw_run_stops(s, escape, i, Seq::empty());
    }
}

} // verus!
