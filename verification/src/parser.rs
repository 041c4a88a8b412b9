use vstd::prelude::*;
use crate::chars::{Char, Chars, chars_values, chars_width};
use crate::escape::{escape_str, escaped_text};
use crate::filter::{Filter, FilterView, filter_result};
use crate::lexer::{Lexer, ParsedToken, Token, TokenView, lemma_token_advances, lemma_token_width, lemma_tokens_tile, token_result};
use crate::parse::{Config, ConfigView, Error, SeparatorView, ErrorKind, ErrorKindView, ErrorView, Parsed, Result, error_at};
use crate::reader::{Cursor, Reader};
use crate::text::{decimal, push_decimal, string_from_str};

verus! {

/// A filter with the byte range of the pattern source that it was read from.
pub type ParsedFilter = Parsed<Filter>;

/// An item with the byte range of the pattern source that it was read from.
pub type ParsedItem = Parsed<Item>;

/// A part of a pattern: text copied as it is, or an expression that transforms the input.
#[derive(Debug, PartialEq)]
pub enum Item {
    Constant(String),
    Expression(Vec<ParsedFilter>),
}

/// A filter, by view, with its byte range.
pub type FilterAt = (FilterView, nat, nat);

/// The mathematical content of an [`Item`].
pub enum ItemView {
    Constant(Seq<char>),
    Expression(Seq<FilterAt>),
}

/// An item, by view, with its byte range.
pub type ItemAt = (ItemView, nat, nat);

/// A parsed filter by view.
pub open spec fn parsed_filter_view(p: ParsedFilter) -> FilterAt {
    (p.value@, p.range.start as nat, p.range.end as nat)
}

/// Parsed filters by view.
pub open spec fn filters_view(filters: Seq<ParsedFilter>) -> Seq<FilterAt> {
    filters.map_values(|p: ParsedFilter| parsed_filter_view(p))
}

impl View for Item {
    type V = ItemView;

    open spec fn view(&self) -> ItemView {
        match self {
            Item::Constant(value) => ItemView::Constant(value@),
            Item::Expression(filters) => ItemView::Expression(filters_view(filters@)),
        }
    }
}

/// A parsed item by view.
pub open spec fn parsed_item_view(p: ParsedItem) -> ItemAt {
    (p.value@, p.range.start as nat, p.range.end as nat)
}

/// Parsed items by view.
pub open spec fn items_view(items: Seq<ParsedItem>) -> Seq<ItemAt> {
    items.map_values(|p: ParsedItem| parsed_item_view(p))
}

/// An error found in a token's own characters, moved to the token's place in the source.
pub open spec fn shifted(e: ErrorView, start: nat) -> ErrorView {
    error_at(e.kind, start + e.start as nat, start + e.end as nat)
}

/// Parsing the characters of a raw token spanning bytes `start` to `end` as one filter:
/// the filter must take up all of them.
pub open spec fn filter_at(chars: Seq<Char>, start: nat, end: nat, separator: SeparatorView) -> std::result::Result<
    FilterAt,
    ErrorView,
> {
    let r = Cursor { chars, index: 0 };
    match filter_result(r, separator) {
        (Err(e), _) => Err(shifted(e, start)),
        (Ok(f), i) => if 0 <= i < chars.len() {
            Err(
                error_at(
                    ErrorKindView::ExpectedPipeOrExprEnd,
                    start + r.pos_at(i),
                    start + r.pos_at(i) + chars[i].width(),
                ),
            )
        } else {
            Ok((f, start, end))
        },
    }
}

/// How reading the filters of an expression ends.
pub enum ExprOutcome {
    /// The expression was closed: its filters, the end of the closing token, and the index
    /// after it.
    Closed(Seq<FilterAt>, nat, int),
    /// The source ended first.
    Unclosed,
    Failed(ErrorView),
}

/// Reading the filters of an expression from index `i` of `s` on, after `acc` were read:
/// filters separated by pipes, up to the end of the expression.
pub open spec fn filters_from(s: Seq<Char>, cfg: ConfigView, i: int, acc: Seq<FilterAt>) -> ExprOutcome
    decreases s.len() - i,
{
    if i < 0 || i > s.len() {
        ExprOutcome::Unclosed
    } else {
        match token_result(s, cfg.escape, i) {
            (Err(e), _) => ExprOutcome::Failed(e),
            (Ok(None), _) => ExprOutcome::Unclosed,
            (Ok(Some((token, start, end))), j) => {
                proof {
                    lemma_token_advances(s, cfg.escape, i);
                }
                match token {
                    TokenView::Raw(chars) => match filter_at(chars, start, end, cfg.separator) {
                        Err(e) => ExprOutcome::Failed(e),
                        Ok(f) => filters_from(s, cfg, j, acc.push(f)),
                    },
                    TokenView::Pipe => if acc.len() == 0 {
                        ExprOutcome::Failed(error_at(ErrorKindView::ExpectedFilterOrExprEnd, start, end))
                    } else {
                        proof {
                            lemma_token_advances(s, cfg.escape, j);
                        }
                        match token_result(s, cfg.escape, j) {
                            (Err(e), _) => ExprOutcome::Failed(e),
                            (Ok(None), _) => ExprOutcome::Failed(error_at(ErrorKindView::ExpectedFilter, end, end)),
                            (Ok(Some((TokenView::Raw(chars), start2, end2))), k) => match filter_at(chars, start2, end2, cfg.separator) {
                                Err(e) => ExprOutcome::Failed(e),
                                Ok(f) => filters_from(s, cfg, k, acc.push(f)),
                            },
                            (Ok(Some((_, start2, end2))), _) => ExprOutcome::Failed(
                                error_at(ErrorKindView::ExpectedFilter, start2, end2),
                            ),
                        }
                    },
                    TokenView::ExprStart => ExprOutcome::Failed(
                        error_at(ErrorKindView::ExprStartInsideExpr, start, end),
                    ),
                    TokenView::ExprEnd => ExprOutcome::Closed(acc, end, j),
                }
            },
        }
    }
}

/// Reading one item from index `i` of `s` on: the item (none at the end) or an error,
/// with the index after it.
pub open spec fn item_step(s: Seq<Char>, cfg: ConfigView, i: int) -> (
    std::result::Result<Option<ItemAt>, ErrorView>,
    int,
) {
    match token_result(s, cfg.escape, i) {
        (Err(e), j) => (Err(e), j),
        (Ok(None), j) => (Ok(None), j),
        (Ok(Some((token, start, end))), j) => match token {
            TokenView::Raw(chars) => (Ok(Some((ItemView::Constant(chars_values(chars)), start, end))), j),
            TokenView::ExprStart => match filters_from(s, cfg, j, Seq::empty()) {
                ExprOutcome::Closed(filters, end2, k) => (Ok(Some((ItemView::Expression(filters), start, end2))), k),
                ExprOutcome::Unclosed => (Err(error_at(ErrorKindView::UnmatchedExprStart, start, end)), j),
                ExprOutcome::Failed(e) => (Err(e), j),
            },
            TokenView::ExprEnd => (Err(error_at(ErrorKindView::UnmatchedExprEnd, start, end)), j),
            TokenView::Pipe => (Err(error_at(ErrorKindView::PipeOutsideExpr, start, end)), j),
        },
    }
}

/// A closed expression ends after where its filters start, and within the source.
pub proof fn lemma_filters_advance(s: Seq<Char>, cfg: ConfigView, i: int, acc: Seq<FilterAt>)
    requires
        0 <= i <= s.len(),
    ensures
        filters_from(s, cfg, i, acc) matches ExprOutcome::Closed(_, _, k) ==> i < k <= s.len(),
    decreases s.len() - i,
{
    lemma_token_advances(s, cfg.escape, i);
    let (t, j) = token_result(s, cfg.escape, i);
    if let Ok(Some((token, start, end))) = t {
        match token {
            TokenView::Raw(chars) => {
                if let Ok(f) = filter_at(chars, start, end, cfg.separator) {
                    lemma_filters_advance(s, cfg, j, acc.push(f));
                }
            },
            TokenView::Pipe => {
                if acc.len() > 0 {
                    lemma_token_advances(s, cfg.escape, j);
                    if let (Ok(Some((TokenView::Raw(chars), start2, end2))), k) = token_result(s, cfg.escape, j) {
                        if let Ok(f) = filter_at(chars, start2, end2, cfg.separator) {
                            lemma_filters_advance(s, cfg, k, acc.push(f));
                        }
                    }
                }
            },
            _ => {},
        }
    }
}

/// An item read at index `i` ends after `i` and within the source.
pub proof fn lemma_item_advances(s: Seq<Char>, cfg: ConfigView, i: int)
    requires
        0 <= i <= s.len(),
    ensures
        i <= item_step(s, cfg, i).1 <= s.len(),
        item_step(s, cfg, i).0 matches Ok(Some(_)) ==> i < item_step(s, cfg, i).1,
{
    lemma_token_advances(s, cfg.escape, i);
    let j = token_result(s, cfg.escape, i).1;
    if j > i {
        lemma_filters_advance(s, cfg, j, Seq::empty());
    }
}

/// Reading the items of `s` from index `i` on, after `acc` were read.
pub open spec fn items_from(s: Seq<Char>, cfg: ConfigView, i: int, acc: Seq<ItemAt>) -> std::result::Result<
    Seq<ItemAt>,
    ErrorView,
>
    decreases s.len() - i,
{
    if i < 0 || i > s.len() {
        Ok(acc)
    } else {
        match item_step(s, cfg, i) {
            (Err(e), _) => Err(e),
            (Ok(None), _) => Ok(acc),
            (Ok(Some(item)), j) => {
                proof {
                    lemma_item_advances(s, cfg, i);
                }
                items_from(s, cfg, j, acc.push(item))
            },
        }
    }
}

/// What parsing the characters `s` of a pattern source gives: its items, each with its
/// byte range, or the first error.
pub open spec fn items_result(s: Seq<Char>, cfg: ConfigView) -> std::result::Result<Seq<ItemAt>, ErrorView> {
    items_from(s, cfg, 0, Seq::empty())
}

/// The token just read, by view, with its byte range (none at the end).
pub open spec fn current_token(token: Option<ParsedToken>) -> Option<(TokenView, nat, nat)> {
    match token {
        Some(t) => Some((t.value@, t.range.start as nat, t.range.end as nat)),
        None => None,
    }
}

/// Turns the tokens of a pattern source into items.
pub struct Parser<'a> {
    pub lexer: Lexer,
    pub token: Option<ParsedToken>,
    pub config: &'a Config,
}

impl<'a> Parser<'a> {
    /// The lexer is consistent and uses the configured escape character.
    pub open spec fn wf(&self) -> bool {
        &&& self.lexer.wf()
        &&& self.lexer.escape == self.config.escape
        &&& self.token matches Some(t) ==> t.range.start <= t.range.end <= chars_width(self.source())
    }

    /// The characters of the source, each as itself.
    pub open spec fn source(&self) -> Seq<Char> {
        self.lexer.reader.chars@
    }

    /// The index of the lexer in the source.
    pub open spec fn index(&self) -> int {
        self.lexer.reader.index as int
    }

    /// A parser at the start of `input`.
    pub fn new(input: &str, config: &'a Config) -> (p: Parser<'a>)
        requires
            chars_width(crate::reader::raw_chars(input@)) <= usize::MAX,
        ensures
            p.wf(),
            p.source() == crate::reader::raw_chars(input@),
            p.index() == 0,
            p.config == config,
    {
        Parser { lexer: Lexer::new(input, config.escape), token: None, config }
    }

    /// Reads the next token into `self.token`.
    fn fetch_token(&mut self) -> (r: Result<()>)
        requires
            old(self).wf(),
        ensures
            final(self).wf(),
            final(self).source() == old(self).source(),
            final(self).lexer.reader.chars == old(self).lexer.reader.chars,
            final(self).config == old(self).config,
            final(self).index() == token_result(old(self).source(), old(self).config.escape, old(self).index()).1,
            match token_result(old(self).source(), old(self).config.escape, old(self).index()).0 {
                Ok(t) => r is Ok && current_token(final(self).token) == t,
                Err(e) => r matches Err(x) && x@ == e,
            },
            crate::parse::error_within(r, chars_width(old(self).source())),
    {
        match self.lexer.read_token() {
            Ok(token) => {
                self.token = token;
                Ok(())
            },
            Err(e) => Err(e),
        }
    }

    /// Parses the characters of a raw token as one filter that takes up all of them.
    fn parse_filter(&self, chars: &[Char], range: &std::ops::Range<usize>) -> (r: Result<ParsedFilter>)
        requires
            range.start <= range.end,
            chars_width(chars@) == range.end - range.start,
        ensures
            match filter_at(chars@, range.start as nat, range.end as nat, self.config.separator@) {
                Ok(f) => r matches Ok(p) && parsed_filter_view(p) == f,
                Err(e) => r matches Err(x) && x@ == e,
            },
            crate::parse::error_within(r, range.end as nat),
    {
        let mut reader = Reader::new(vstd::slice::slice_to_vec(chars));
        let ghost r0 = reader@;
        assert(r0 == Cursor { chars: chars@, index: 0 });
        let filter = match Filter::parse(&mut reader, self.config) {
            Ok(f) => f,
            Err(error) => {
                let start = range.start + error.range.start;
                let end = range.start + error.range.end;
                return Err(Error { kind: error.kind, range: start..end });
            },
        };
        match reader.peek() {
            Some(ch) => {
                let position = reader.position();
                proof {
                    crate::chars::lemma_chars_width_step(chars@, reader.index as int);
                    crate::chars::lemma_chars_width_prefix(chars@, reader.index + 1, chars@.len() as int);
                    assert(chars@.take(chars@.len() as int) =~= chars@);
                }
                let start = range.start + position;
                let end = range.start + position + ch.len_utf8();
                Err(Error { kind: ErrorKind::ExpectedPipeOrExprEnd, range: start..end })
            },
            None => Ok(Parsed { value: filter, range: range.start..range.end }),
        }
    }
}

/// What reading the filters of an expression leaves behind, by view.
pub open spec fn filters_outcome(
    r: Result<Vec<ParsedFilter>>,
    token: Option<ParsedToken>,
    index: int,
) -> ExprOutcome {
    match r {
        Err(e) => ExprOutcome::Failed(e@),
        Ok(filters) => match token {
            Some(t) => ExprOutcome::Closed(filters_view(filters@), t.range.end as nat, index),
            None => ExprOutcome::Unclosed,
        },
    }
}

impl<'a> Parser<'a> {
    /// Reads the filters of an expression, up to its end or the end of the source.
    #[verifier::rlimit(60)]
    #[verifier::spinoff_prover]
    fn parse_filters(&mut self) -> (r: Result<Vec<ParsedFilter>>)
        requires
            old(self).wf(),
        ensures
            final(self).wf(),
            final(self).source() == old(self).source(),
            final(self).config == old(self).config,
            filters_outcome(r, final(self).token, final(self).index()) == filters_from(
                old(self).source(),
                old(self).config@,
                old(self).index(),
                Seq::empty(),
            ),
            r is Ok ==> (final(self).token matches Some(t) ==> t.value is ExprEnd),
            crate::parse::error_within(r, chars_width(old(self).source())),
    {
        let ghost s = self.source();
        let ghost esc = self.config.escape;
        let ghost pcfg = self.config@;
        let ghost i0 = self.index();
        let mut filters: Vec<ParsedFilter> = Vec::new();
        let ghost mut p = self.index();
        proof {
            crate::lexer::lemma_token_advances(s, esc, p);
        }
        match self.fetch_token() {
            Ok(()) => {},
            Err(e) => {
                return Err(e);
            },
        }
        assert(filters_view(filters@) =~= Seq::<FilterAt>::empty());
        loop
            invariant
                self.wf(),
                self.source() == s,
                self.config.escape == esc,
                self.config == old(self).config,
                s == old(self).source(),
                esc == old(self).config.escape,
                pcfg == old(self).config@,
                i0 == old(self).index(),
                0 <= p <= s.len(),
                token_result(s, esc, p) == (
                    Ok::<Option<(TokenView, nat, nat)>, ErrorView>(current_token(self.token)),
                    self.index(),
                ),
                filters_from(s, pcfg, i0, Seq::empty()) == filters_from(s, pcfg, p, filters_view(filters@)),
            ensures
                self.wf(),
                self.source() == s,
                self.config == old(self).config,
                filters_from(s, pcfg, i0, Seq::empty()) == filters_outcome(
                    Ok(filters),
                    self.token,
                    self.index(),
                ),
                self.token matches Some(t) ==> t.value is ExprEnd,
            decreases s.len() - p,
        {
            proof {
                crate::lexer::lemma_token_advances(s, esc, p);
                crate::lexer::lemma_token_width(s, esc, p);
            }
            let ghost before = filters@;
            match &self.token {
                None => {
                    break;
                },
                Some(token) => {
                    match &token.value {
                        Token::Raw(raw) => {
                            match self.parse_filter(raw.as_slice(), &token.range) {
                                Ok(f) => {
                                    filters.push(f);
                                    assert(filters_view(filters@) =~= filters_view(before).push(parsed_filter_view(f)));
                                },
                                Err(e) => {
                                    return Err(e);
                                },
                            }
                        },
                        Token::Pipe => {
                            if filters.len() == 0 {
                                assert(filters_view(filters@) =~= Seq::<FilterAt>::empty());
                                return Err(Error { kind: ErrorKind::ExpectedFilterOrExprEnd, range: token.range.start..token.range.end });
                            }
                            let position = token.range.end;
                            let ghost j = self.index();
                            proof {
                                crate::lexer::lemma_token_advances(s, esc, j);
                                crate::lexer::lemma_token_width(s, esc, j);
                            }
                            match self.fetch_token() {
                                Ok(()) => {},
                                Err(e) => {
                                    return Err(e);
                                },
                            }
                            match &self.token {
                                Some(next) => {
                                    match &next.value {
                                        Token::Raw(raw) => {
                                            match self.parse_filter(raw.as_slice(), &next.range) {
                                                Ok(f) => {
                                                    filters.push(f);
                                                    assert(filters_view(filters@) =~= filters_view(before).push(parsed_filter_view(f)));
                                                },
                                                Err(e) => {
                                                    return Err(e);
                                                },
                                            }
                                        },
                                        _ => {
                                            return Err(Error { kind: ErrorKind::ExpectedFilter, range: next.range.start..next.range.end });
                                        },
                                    }
                                },
                                None => {
                                    return Err(Error { kind: ErrorKind::ExpectedFilter, range: position..position });
                                },
                            }
                        },
                        Token::ExprStart => {
                            return Err(Error { kind: ErrorKind::ExprStartInsideExpr, range: token.range.start..token.range.end });
                        },
                        Token::ExprEnd => {
                            break;
                        },
                    }
                },
            }
            proof {
                p = self.index();
            }
            match self.fetch_token() {
                Ok(()) => {},
                Err(e) => {
                    return Err(e);
                },
            }
        }
        Ok(filters)
    }
}

impl<'a> Parser<'a> {
    /// The value of the token just read, if any.
    fn token_value(&self) -> (t: Option<&Token>)
        ensures
            match self.token {
                Some(p) => t == Some(&p.value),
                None => t is None,
            },
    {
        match &self.token {
            Some(token) => Some(&token.value),
            None => None,
        }
    }

    /// The byte range of the token just read (empty at the start when there is none).
    fn token_range(&self) -> (r: std::ops::Range<usize>)
        ensures
            match self.token {
                Some(p) => r == p.range,
                None => r.start == 0 && r.end == 0,
            },
    {
        match &self.token {
            Some(token) => token.range.start..token.range.end,
            None => 0..0,
        }
    }

    /// Reads an expression whose start was just read; its range ends with the token that
    /// follows its filters.
    fn parse_expression(&mut self) -> (r: Result<Option<ParsedItem>>)
        requires
            old(self).wf(),
            old(self).token is Some,
        ensures
            final(self).wf(),
            final(self).source() == old(self).source(),
            final(self).config == old(self).config,
            ({
                let outcome = filters_from(old(self).source(), old(self).config@, old(self).index(), Seq::empty());
                match outcome {
                    ExprOutcome::Failed(e) => r matches Err(x) && x@ == e,
                    ExprOutcome::Unclosed => final(self).token is None && r is Ok,
                    ExprOutcome::Closed(filters, end, k) => {
                        &&& final(self).index() == k
                        &&& final(self).token matches Some(t) && t.value is ExprEnd
                        &&& r matches Ok(Some(item)) && parsed_item_view(item) == (
                            ItemView::Expression(filters),
                            old(self).token->0.range.start as nat,
                            end,
                        )
                    },
                }
            }),
            crate::parse::error_within(r, chars_width(old(self).source())),
    {
        let start = self.token_range().start;
        let filters = self.parse_filters()?;
        let end = self.token_range().end;
        Ok(Some(Parsed { value: Item::Expression(filters), range: start..end }))
    }

    /// Reads the next item, if any.
    fn parse_item(&mut self) -> (r: Result<Option<ParsedItem>>)
        requires
            old(self).wf(),
        ensures
            final(self).wf(),
            final(self).source() == old(self).source(),
            final(self).config == old(self).config,
            match item_step(old(self).source(), old(self).config@, old(self).index()) {
                (Err(e), _) => r matches Err(x) && x@ == e,
                (Ok(None), j) => r matches Ok(None) && final(self).index() == j,
                (Ok(Some(item)), j) => r matches Ok(Some(p)) && parsed_item_view(p) == item
                    && final(self).index() == j,
            },
            crate::parse::error_within(r, chars_width(old(self).source())),
    {
        match self.fetch_token() {
            Ok(()) => {},
            Err(e) => {
                return Err(e);
            },
        }
        match &self.token {
            Some(token) => {
                match &token.value {
                    Token::Raw(raw) => Ok(
                        Some(Parsed { value: Item::Constant(Chars::from(raw.as_slice()).to_string()), range: token.range.start..token.range.end }),
                    ),
                    Token::ExprStart => {
                        let expr_start_range = token.range.start..token.range.end;
                        let expression = self.parse_expression()?;
                        if let Some(Token::ExprEnd) = self.token_value() {
                            Ok(expression)
                        } else {
                            Err(Error { kind: ErrorKind::UnmatchedExprStart, range: expr_start_range })
                        }
                    },
                    Token::ExprEnd => Err(Error { kind: ErrorKind::UnmatchedExprEnd, range: token.range.start..token.range.end }),
                    Token::Pipe => Err(Error { kind: ErrorKind::PipeOutsideExpr, range: token.range.start..token.range.end }),
                }
            },
            None => Ok(None),
        }
    }

    /// Reads all items of the source. The items it gives cover the source from its first
    /// byte to its last, one after the other; there are none only for an empty source; and
    /// no two constants follow each other.
    pub fn parse_items(&mut self) -> (r: Result<Vec<ParsedItem>>)
        requires
            old(self).wf(),
            old(self).index() == 0,
        ensures
            match items_result(old(self).source(), old(self).config@) {
                Ok(items) => r matches Ok(v) && items_view(v@) == items,
                Err(e) => r matches Err(x) && x@ == e,
            },
            r matches Ok(v) ==> {
                &&& tiles(items_view(v@), 0, chars_width(old(self).source()))
                &&& (v@.len() == 0 <==> old(self).source().len() == 0)
                &&& no_adjacent_constants(items_view(v@))
            },
            crate::parse::error_within(r, chars_width(old(self).source())),
    {
        let ghost s = self.source();
        let ghost esc = self.config.escape;
        let ghost pcfg = self.config@;
        let mut items: Vec<ParsedItem> = Vec::new();
        assert(items_view(items@) =~= Seq::<ItemAt>::empty());
        loop
            invariant
                self.wf(),
                self.source() == s,
                self.config.escape == esc,
                s == old(self).source(),
                esc == old(self).config.escape,
                pcfg == old(self).config@,
                self.config == old(self).config,
                0 <= self.index() <= s.len(),
                items_result(s, pcfg) == items_from(s, pcfg, self.index(), items_view(items@)),
            decreases s.len() - self.index(),
        {
            let ghost before = items@;
            let ghost i = self.index();
            proof {
                lemma_item_advances(s, pcfg, i);
            }
            match self.parse_item() {
                Ok(Some(item)) => {
                    items.push(item);
                    assert(items_view(items@) =~= items_view(before).push(parsed_item_view(item)));
                },
                Ok(None) => {
                    proof {
                        lemma_items_shape(s, pcfg);
                        assert(items_view(items@).len() == items@.len());
                    }
                    return Ok(items);
                },
                Err(e) => {
                    return Err(e);
                },
            }
        }
    }
}

/// Every filter of an item (if it is an expression) can be applied.
pub open spec fn item_filters_wf(item: ItemAt) -> bool {
    item.0 matches ItemView::Expression(filters) ==> forall|j: int|
        0 <= j < filters.len() ==> (#[trigger] filters[j]).0.wf()
}

/// Each filter of a parsed expression whose filters can all be applied can be applied.
pub proof fn lemma_expression_filter_wf(item: ParsedItem, filters: Vec<ParsedFilter>, j: int)
    requires
        item_filters_wf(parsed_item_view(item)),
        item.value == Item::Expression(filters),
        0 <= j < filters@.len(),
    ensures
        filters@[j].value.wf(),
{
    let fv = filters_view(filters@);
    let view = parsed_item_view(item);
    assert(view.0 == ItemView::Expression(fv));
    assert(fv[j] == parsed_filter_view(filters@[j]));
    if let ItemView::Expression(listed) = view.0 {
        assert(listed == fv);
        assert(listed[j].0.wf());
    }
}

/// The filters of an expression that parses can all be applied.
pub proof fn lemma_filters_wf(s: Seq<Char>, cfg: ConfigView, i: int, acc: Seq<FilterAt>)
    requires
        0 <= i <= s.len(),
        forall|j: int| 0 <= j < acc.len() ==> (#[trigger] acc[j]).0.wf(),
    ensures
        filters_from(s, cfg, i, acc) matches ExprOutcome::Closed(filters, _, _) ==> forall|j: int|
            0 <= j < filters.len() ==> (#[trigger] filters[j]).0.wf(),
    decreases s.len() - i,
{
    lemma_token_advances(s, cfg.escape, i);
    let (t, j) = token_result(s, cfg.escape, i);
    if let Ok(Some((token, start, end))) = t {
        match token {
            TokenView::Raw(chars) => {
                crate::filter::lemma_filter_result_wf(Cursor { chars, index: 0 }, cfg.separator);
                if let Ok(f) = filter_at(chars, start, end, cfg.separator) {
                    lemma_filters_wf(s, cfg, j, acc.push(f));
                }
            },
            TokenView::Pipe => {
                if acc.len() > 0 {
                    lemma_token_advances(s, cfg.escape, j);
                    if let (Ok(Some((TokenView::Raw(chars), start2, end2))), k) = token_result(s, cfg.escape, j) {
                        crate::filter::lemma_filter_result_wf(Cursor { chars, index: 0 }, cfg.separator);
                        if let Ok(f) = filter_at(chars, start2, end2, cfg.separator) {
                            lemma_filters_wf(s, cfg, k, acc.push(f));
                        }
                    }
                }
            },
            _ => {},
        }
    }
}

/// Every filter of a pattern that parses can be applied.
pub proof fn lemma_items_wf(s: Seq<Char>, cfg: ConfigView, i: int, acc: Seq<ItemAt>)
    requires
        0 <= i <= s.len(),
        forall|k: int| 0 <= k < acc.len() ==> item_filters_wf(#[trigger] acc[k]),
    ensures
        items_from(s, cfg, i, acc) matches Ok(items) ==> forall|k: int|
            0 <= k < items.len() ==> item_filters_wf(#[trigger] items[k]),
    decreases s.len() - i,
{
    lemma_item_advances(s, cfg, i);
    if let (Ok(Some(item)), j) = item_step(s, cfg, i) {
        lemma_token_advances(s, cfg.escape, i);
        let j0 = token_result(s, cfg.escape, i).1;
        if j0 > i {
            lemma_filters_wf(s, cfg, j0, Seq::empty());
        }
        lemma_items_wf(s, cfg, j, acc.push(item));
    }
}

impl Item {
    /// How the item is shown to a user.
    pub open spec fn display(&self) -> Seq<char> {
        match self {
            Item::Constant(value) => "Constant '"@ + escaped_text(value@) + "'"@,
            Item::Expression(filters) => if filters@.len() == 0 {
                "Empty expression"@
            } else if filters@.len() == 1 {
                "Expression with a filter"@
            } else {
                "Expression with "@ + decimal(filters@.len()) + " filters"@
            },
        }
    }

    /// How the item is shown to a user.
    pub fn to_display_string(&self) -> (s: String)
        ensures
            s@ == self.display(),
    {
        match self {
            Item::Constant(value) => {
                let mut s = string_from_str("Constant '");
                s.append(escape_str(value.as_str()).as_str());
                s.append("'");
                s
            },
            Item::Expression(filters) => {
                if filters.len() == 0 {
                    string_from_str("Empty expression")
                } else if filters.len() == 1 {
                    string_from_str("Expression with a filter")
                } else {
                    let mut s = string_from_str("Expression with ");
                    push_decimal(&mut s, filters.len() as u128);
                    s.append(" filters");
                    assert(s@ =~= self.display());
                    s
                }
            },
        }
    }
}

/// Items, by their byte ranges, follow each other without gaps or overlaps from byte
/// `from` to byte `to`.
pub open spec fn tiles(items: Seq<ItemAt>, from: nat, to: nat) -> bool {
    &&& items.len() == 0 ==> from == to
    &&& items.len() > 0 ==> items[0].1 == from && items.last().2 == to
    &&& forall|k: int| 0 <= k < items.len() ==> (#[trigger] items[k]).1 <= items[k].2
    &&& forall|k: int| 0 <= k < items.len() - 1 ==> (#[trigger] items[k]).2 == items[k + 1].1
}

/// A closed expression ends at the byte offset of the index after it.
proof fn lemma_filters_end(s: Seq<Char>, cfg: ConfigView, i: int, acc: Seq<FilterAt>)
    requires
        0 <= i <= s.len(),
    ensures
        filters_from(s, cfg, i, acc) matches ExprOutcome::Closed(_, end, k) ==> end == crate::lexer::offset(
            s,
            k,
        ),
    decreases s.len() - i,
{
    lemma_token_advances(s, cfg.escape, i);
    let (t, j) = token_result(s, cfg.escape, i);
    if let Ok(Some((token, start, end))) = t {
        match token {
            TokenView::Raw(chars) => {
                if let Ok(f) = filter_at(chars, start, end, cfg.separator) {
                    lemma_filters_end(s, cfg, j, acc.push(f));
                }
            },
            TokenView::Pipe => {
                if acc.len() > 0 {
                    lemma_token_advances(s, cfg.escape, j);
                    if let (Ok(Some((TokenView::Raw(chars), start2, end2))), k) = token_result(s, cfg.escape, j) {
                        if let Ok(f) = filter_at(chars, start2, end2, cfg.separator) {
                            lemma_filters_end(s, cfg, k, acc.push(f));
                        }
                    }
                }
            },
            _ => {},
        }
    }
}

/// An item read at index `i` spans the bytes from that index to the index after it.
proof fn lemma_item_span(s: Seq<Char>, cfg: ConfigView, i: int)
    requires
        0 <= i <= s.len(),
    ensures
        item_step(s, cfg, i).0 matches Ok(Some(item)) ==> item.1 == crate::lexer::offset(s, i)
            && item.2 == crate::lexer::offset(s, item_step(s, cfg, i).1),
{
    lemma_token_advances(s, cfg.escape, i);
    let j = token_result(s, cfg.escape, i).1;
    if j > i {
        lemma_filters_end(s, cfg, j, Seq::empty());
    }
}

/// Items read from index `i` on, after items that tile the bytes before it, tile the
/// whole source.
proof fn lemma_items_tile(s: Seq<Char>, cfg: ConfigView, i: int, acc: Seq<ItemAt>)
    requires
        0 <= i <= s.len(),
        tiles(acc, 0, crate::lexer::offset(s, i)),
    ensures
        items_from(s, cfg, i, acc) matches Ok(items) ==> tiles(items, 0, chars_width(s)),
    decreases s.len() - i,
{
    lemma_item_advances(s, cfg, i);
    lemma_item_span(s, cfg, i);
    let (t, j) = item_step(s, cfg, i);
    match t {
        Ok(Some(item)) => {
            crate::chars::lemma_chars_width_prefix(s, i, j);
            let next = acc.push(item);
            assert(tiles(next, 0, crate::lexer::offset(s, j))) by {
                assert forall|k: int| 0 <= k < next.len() - 1 implies (#[trigger] next[k]).2 == next[k + 1].1 by {
                    if k < acc.len() - 1 {
                        assert(next[k] == acc[k] && next[k + 1] == acc[k + 1]);
                    } else {
                        assert(next[k] == acc.last());
                    }
                }
                assert forall|k: int| 0 <= k < next.len() implies (#[trigger] next[k]).1 <= next[k].2 by {
                    if k < acc.len() {
                        assert(next[k] == acc[k]);
                    }
                }
            }
            lemma_items_tile(s, cfg, j, next);
        },
        Ok(None) => {
            lemma_token_advances(s, cfg.escape, i);
            assert(i == s.len());
            assert(s.take(i) =~= s);
        },
        Err(_) => {},
    }
}

/// A pattern that parses is cut into items that follow each other without gaps or
/// overlaps, from the first byte of its source to the last.
pub proof fn lemma_items_cover_source(s: Seq<Char>, cfg: ConfigView)
    ensures
        items_result(s, cfg) matches Ok(items) ==> tiles(items, 0, chars_width(s)),
{
    assert(s.take(0) =~= Seq::<Char>::empty());
    lemma_items_tile(s, cfg, 0, Seq::empty());
}

/// No two items that follow each other are both constants.
pub open spec fn no_adjacent_constants(items: Seq<ItemAt>) -> bool {
    forall|k: int| 0 <= k < items.len() - 1 ==> !((#[trigger] items[k]).0 is Constant && items[k + 1].0 is Constant)
}

/// Items read from index `i` on, after items of which no two constants follow each other
/// (and, where the last of them is a constant, before an item that is not), have no two
/// constants that follow each other.
proof fn lemma_items_alternate(s: Seq<Char>, cfg: ConfigView, i: int, acc: Seq<ItemAt>)
    requires
        0 <= i <= s.len(),
        forall|k: int| 0 <= k < s.len() ==> #[trigger] s[k] is Raw,
        no_adjacent_constants(acc),
        acc.len() > 0 && acc.last().0 is Constant ==> !(item_step(s, cfg, i).0 matches Ok(
            Some((ItemView::Constant(_), _, _)),
        )),
    ensures
        items_from(s, cfg, i, acc) matches Ok(items) ==> no_adjacent_constants(items),
    decreases s.len() - i,
{
    lemma_item_advances(s, cfg, i);
    let (t, j) = item_step(s, cfg, i);
    if let Ok(Some(item)) = t {
        let next = acc.push(item);
        assert(no_adjacent_constants(next)) by {
            assert forall|k: int| 0 <= k < next.len() - 1 implies !((#[trigger] next[k]).0 is Constant
                && next[k + 1].0 is Constant) by {
                if k < acc.len() - 1 {
                    assert(next[k] == acc[k] && next[k + 1] == acc[k + 1]);
                } else {
                    assert(next[k] == acc.last());
                }
            }
        }
        lemma_tokens_tile(s, cfg.escape, i);
        if item.0 is Constant {
            lemma_tokens_tile(s, cfg.escape, j);
        }
        lemma_items_alternate(s, cfg, j, next);
    }
}

/// The items of a pattern source (each of its characters written as itself) that parses
/// follow each other without gaps or overlaps from its first byte to its last; there are
/// none exactly when the source is empty; and no two constants follow each other.
pub proof fn lemma_items_shape(s: Seq<Char>, cfg: ConfigView)
    requires
        forall|k: int| 0 <= k < s.len() ==> #[trigger] s[k] is Raw,
    ensures
        items_result(s, cfg) matches Ok(items) ==> {
            &&& tiles(items, 0, chars_width(s))
            &&& (items.len() == 0 <==> s.len() == 0)
            &&& no_adjacent_constants(items)
        },
{
    lemma_items_cover_source(s, cfg);
    lemma_items_alternate(s, cfg, 0, Seq::empty());
    if s.len() > 0 {
        assert(s.last() is Raw);
        assert(s.drop_last().len() < s.len());
        assert(chars_width(s) >= s.last().width());
    }
}

/// Text in which no character delimits expressions or starts an escape sequence.
pub open spec fn is_plain(text: Seq<char>, escape: char) -> bool {
    forall|k: int| 0 <= k < text.len() ==> !crate::lexer::is_special(#[trigger] text[k]) && text[k] != escape
}

proof fn lemma_plain_raw_run(text: Seq<char>, escape: char, i: int, acc: Seq<Char>)
    requires
        is_plain(text, escape),
        0 <= i <= text.len(),
    ensures
        crate::lexer::raw_run(crate::reader::raw_chars(text), escape, i, acc) == (
            Ok::<Seq<Char>, ErrorView>(acc + crate::reader::raw_chars(text).skip(i)),
            text.len() as int,
        ),
    decreases text.len() - i,
{
    let s = crate::reader::raw_chars(text);
    if i < text.len() {
        assert(s[i].value() == text[i]);
        lemma_plain_raw_run(text, escape, i + 1, acc.push(crate::reader::raw_char(text[i])));
        assert(acc.push(crate::reader::raw_char(text[i])) + s.skip(i + 1) =~= acc + s.skip(i));
    } else {
        assert(acc + s.skip(i) =~= acc);
    }
}

/// A pattern whose source is plain text is one constant: that text, spanning the whole
/// source (no item at all for an empty source).
pub proof fn lemma_plain_text_is_constant(text: Seq<char>, cfg: ConfigView)
    requires
        is_plain(text, cfg.escape),
    ensures
        items_result(crate::reader::raw_chars(text), cfg) == if text.len() == 0 {
            Ok::<Seq<ItemAt>, ErrorView>(Seq::empty())
        } else {
            Ok::<Seq<ItemAt>, ErrorView>(
                seq![(ItemView::Constant(text), 0nat, chars_width(crate::reader::raw_chars(text)))],
            )
        },
{
    let s = crate::reader::raw_chars(text);
    let n = text.len() as int;
    if n > 0 {
        lemma_plain_raw_run(text, cfg.escape, 0, Seq::empty());
        assert(Seq::<Char>::empty() + s.skip(0) =~= s);
        assert(s[0].value() == text[0]);
        assert(chars_values(s) =~= text);
        assert(s.take(0) =~= Seq::<Char>::empty());
        assert(s.take(n) =~= s);
        let item = (ItemView::Constant(text), 0nat, chars_width(s));
        assert(item_step(s, cfg, 0) == (Ok::<Option<ItemAt>, ErrorView>(Some(item)), n));
        assert(item_step(s, cfg, n).0 == Ok::<Option<ItemAt>, ErrorView>(None));
        assert(Seq::<ItemAt>::empty().push(item) =~= seq![item]);
        assert(items_from(s, cfg, n, seq![item]) == Ok::<Seq<ItemAt>, ErrorView>(seq![item]));
        assert(items_from(s, cfg, 0, Seq::empty()) == items_from(s, cfg, n, Seq::<ItemAt>::empty().push(item)));
    } else {
        assert(item_step(s, cfg, 0).0 == Ok::<Option<ItemAt>, ErrorView>(None));
    }
}

} // verus!
