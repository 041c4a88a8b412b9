use vstd::prelude::*;
use crate::chars::chars_values;
use crate::output::{lemma_width_grows, starts_at};
use crate::parse::{Error, ErrorKind, ErrorKindView, ErrorView, Result, error_at};
use crate::range::{Range, RangeType, RangeView, range_result, rules};
use crate::reader::{Cursor, Reader};
use crate::regexp::{RegexHolder, regex_match_spans, regex_valid, spans_in_order};
use crate::text::{decimal, push_decimal, string_from_str};

verus! {

/// Ranges of match numbers: one-based in a pattern, `A-B`, `A-` or `A`.
#[derive(PartialEq, Debug)]
pub struct RegexRangeType;

impl RangeType for RegexRangeType {
    type Value = usize;

    open spec fn index_spec() -> bool {
        true
    }

    open spec fn empty_allowed_spec() -> bool {
        false
    }

    open spec fn delimiter_required_spec() -> bool {
        false
    }

    open spec fn length_allowed_spec() -> bool {
        false
    }

    fn index() -> (b: bool) {
        true
    }

    fn empty_allowed() -> (b: bool) {
        false
    }

    fn delimiter_required() -> (b: bool) {
        false
    }

    fn length_allowed() -> (b: bool) {
        false
    }
}

/// A range of match numbers.
pub type RegexRange = Range<RegexRangeType>;

impl RegexRange {
    /// How the range is shown: `#A`, `#A-B` or `#A-last`, one-based.
    pub open spec fn display(&self) -> Seq<char> {
        match self.1 {
            Some(end) => if self.0 + 1 == end {
                "#"@ + decimal((self.0 + 1) as nat)
            } else {
                "#"@ + decimal((self.0 + 1) as nat) + "-"@ + decimal(end as nat)
            },
            None => "#"@ + decimal((self.0 + 1) as nat) + "-last"@,
        }
    }

    /// How the range is shown.
    pub fn to_display_string(&self) -> (s: String)
        ensures
            s@ == self.display(),
    {
        let mut s = string_from_str("#");
        push_decimal(&mut s, self.0 as u128 + 1);
        match self.1 {
            Some(end) => {
                if self.0 as u128 + 1 != end as u128 {
                    s.append("-");
                    push_decimal(&mut s, end as u128);
                }
            },
            None => {
                s.append("-last");
            },
        }
        assert(s@ =~= self.display());
        s
    }
}

/// Character indices `i <= j` of `s` that start at the bytes `start` and `end`.
pub open spec fn is_char_span(s: Seq<char>, start: nat, end: nat, i: int, j: int) -> bool {
    i <= j && starts_at(s, i, start) && starts_at(s, j, end)
}

/// The characters between the byte offsets `start` and `end` of `s`, when both lie on
/// character boundaries and `start <= end`.
pub open spec fn text_between(s: Seq<char>, start: nat, end: nat) -> Option<Seq<char>> {
    if exists|i: int, j: int| is_char_span(s, start, end, i, j) {
        let (i, j) = choose|i: int, j: int| is_char_span(s, start, end, i, j);
        Some(s.subrange(i, j))
    } else {
        None
    }
}

/// `str::get(start..end)`: the text between two byte offsets. Its documentation says that it
/// gives nothing where indexing would panic: offsets out of order, past the end, or not on
/// character boundaries.
#[verifier::external_body]
fn text_get(text: &str, start: usize, end: usize) -> (r: Option<String>)
    ensures
        match r {
            Some(t) => text_between(text@, start as nat, end as nat) == Some(t@),
            None => text_between(text@, start as nat, end as nat) is None,
        },
{
    text.get(start..end).map(|t| t.to_string())
}

/// The index of the last match that a window from `start` of `length` matches reaches,
/// among `count` matches (no length means all that follow).
pub open spec fn last_of_window(count: nat, start: nat, length: Option<nat>) -> nat {
    match length {
        Some(l) => if l <= 1 {
            start
        } else if start + l - 1 < count {
            (start + l - 1) as nat
        } else {
            (count - 1) as nat
        },
        None => (count - 1) as nat,
    }
}

/// The text of `value` from the start of match number `start` to the end of the last match
/// of the window (empty when there is no such match, or the offsets do not delimit text).
pub open spec fn window_text(value: Seq<char>, spans: Seq<(usize, usize)>, start: nat, length: Option<nat>) -> Seq<char> {
    if start < spans.len() {
        let last = last_of_window(spans.len(), start, length);
        match text_between(value, spans[start as int].0 as nat, spans[last as int].1 as nat) {
            Some(t) => t,
            None => Seq::empty(),
        }
    } else {
        Seq::empty()
    }
}

/// Two character boundaries lie in the same order as their byte offsets.
proof fn lemma_boundaries_ordered(s: Seq<char>, i: int, j: int, a: nat, b: nat)
    requires
        starts_at(s, i, a),
        starts_at(s, j, b),
        a <= b,
    ensures
        i <= j,
{
    if i > j {
        lemma_width_grows(s, j, i);
    }
}

/// Over spans in order, span `i` starts no later than span `k` ends, for `i <= k`.
proof fn lemma_spans_forward(text: Seq<char>, spans: Seq<(usize, usize)>, i: int, k: int)
    requires
        spans_in_order(text, spans),
        0 <= i <= k < spans.len(),
    ensures
        spans[i].0 <= spans[k].1,
    decreases k - i,
{
    assert(spans[i].0 <= spans[i].1);
    if i < k {
        lemma_spans_forward(text, spans, i + 1, k);
        assert(spans[i].1 <= spans[i + 1].0);
    }
}

/// Over match spans in order, a window that starts at an existing match is exactly the
/// text from the start of that match to the end of the window's last match: that text
/// always exists.
pub proof fn lemma_window_is_text_between(value: Seq<char>, spans: Seq<(usize, usize)>, start: nat, length: Option<nat>)
    requires
        spans_in_order(value, spans),
        start < spans.len(),
    ensures
        ({
            let last = last_of_window(spans.len(), start, length);
            &&& start <= last < spans.len()
            &&& text_between(value, spans[start as int].0 as nat, spans[last as int].1 as nat)
                == Some(window_text(value, spans, start, length))
        }),
{
    let last = last_of_window(spans.len(), start, length);
    let a = spans[start as int].0 as nat;
    let b = spans[last as int].1 as nat;
    lemma_spans_forward(value, spans, start as int, last as int);
    assert(spans[start as int].0 <= spans[start as int].1);
    assert(spans[last as int].0 <= spans[last as int].1);
    let i = choose|k: int| starts_at(value, k, a);
    let j = choose|k: int| starts_at(value, k, b);
    lemma_boundaries_ordered(value, i, j, a, b);
    assert(is_char_span(value, a, b, i, j));
}

/// Optional numbers as plain values.
pub open spec fn opt_nat(v: Option<usize>) -> Option<nat> {
    match v {
        Some(n) => Some(n as nat),
        None => None,
    }
}

/// The text of `value` covered by the matches `start`, `start + 1`, ... (at most `length`
/// of them), given the byte spans of all matches in order.
pub fn window_of_matches(value: &str, spans: &Vec<(usize, usize)>, start: usize, length: Option<usize>) -> (s: String)
    ensures
        s@ == window_text(value@, spans@, start as nat, opt_nat(length)),
{
    if start >= spans.len() {
        return String::new();
    }
    let last = match length {
        Some(l) => {
            if l <= 1 {
                start
            } else if l - 1 < spans.len() - start {
                start + (l - 1)
            } else {
                spans.len() - 1
            }
        },
        None => spans.len() - 1,
    };
    let (match_start, _) = spans[start];
    let (_, match_end) = spans[last];
    match text_get(value, match_start, match_end) {
        Some(t) => t,
        None => String::new(),
    }
}

/// The window of matches counted from the last one: the start and length of the same
/// window counted from the first, when match number `start` from the last exists.
pub open spec fn backward_window(count: nat, start: nat, length: Option<nat>) -> Option<(nat, nat)> {
    if start < count {
        let end = (count - start) as nat;
        let first = match length {
            Some(l) => if end > l {
                (end - l) as nat
            } else {
                0
            },
            None => 0,
        };
        Some((first, (end - first) as nat))
    } else {
        None
    }
}

/// A regular expression with a range of match numbers: selects the text from the first to
/// the last match of the range.
#[derive(Debug)]
pub struct RegexMatcher {
    pub range: RegexRange,
    pub regex: RegexHolder,
}

/// The mathematical content of a [`RegexMatcher`].
pub struct RegexMatcherView {
    pub range: RangeView,
    pub regex: Seq<char>,
}

impl View for RegexMatcher {
    type V = RegexMatcherView;

    open spec fn view(&self) -> RegexMatcherView {
        RegexMatcherView { range: self.range@, regex: self.regex@ }
    }
}

/// What parsing a regular expression (the rest of `r`) gives, with the index afterwards.
pub open spec fn regex_text_result(r: Cursor) -> (std::result::Result<Seq<char>, ErrorView>, int) {
    let text = chars_values(r.rest());
    (
        if r.rest().len() == 0 {
            Err(error_at(ErrorKindView::ExpectedRegex, r.pos(), r.pos()))
        } else if regex_valid(text) {
            Ok(text)
        } else {
            Err(error_at(ErrorKindView::RegexInvalid, r.pos(), r.end_pos()))
        },
        r.chars.len() as int,
    )
}

/// What parsing a matcher `RANGE:REGEX` from `r` gives, with the index of the reader
/// afterwards; any single character may stand between the range and the regex.
pub open spec fn matcher_result(r: Cursor) -> (std::result::Result<RegexMatcherView, ErrorView>, int) {
    if r.index >= r.chars.len() {
        (Err(error_at(ErrorKindView::ExpectedRegexMatcher, r.pos(), r.pos())), r.index)
    } else {
        let (range, i1) = range_result(r, rules::<RegexRangeType>());
        match range {
            Err(e) => (Err(e), i1),
            Ok(rv) => if i1 < r.chars.len() {
                let (regex, i2) = regex_text_result(r.at(i1 + 1));
                (
                    match regex {
                        Ok(p) => Ok(RegexMatcherView { range: rv, regex: p }),
                        Err(e) => Err(e),
                    },
                    i2,
                )
            } else {
                (Err(error_at(ErrorKindView::ExpectedDelimiterChar, r.pos_at(i1), r.pos_at(i1))), i1)
            },
        }
    }
}

impl RegexMatcher {
    /// Parses a matcher `RANGE:REGEX`.
    pub fn parse(reader: &mut Reader) -> (r: Result<RegexMatcher>)
        requires
            old(reader).wf(),
        ensures
            final(reader).wf(),
            final(reader).chars == old(reader).chars,
            crate::parse::error_within(r, old(reader).end_pos()),
            final(reader).index == matcher_result(old(reader)@).1,
            match (r, matcher_result(old(reader)@).0) {
                (Ok(m), Ok(v)) => m@ == v,
                (Err(e), Err(f)) => e@ == f,
                _ => false,
            },
    {
        if reader.peek().is_none() {
            return Err(Error { kind: ErrorKind::ExpectedRegexMatcher, range: reader.position()..reader.position() });
        }
        let range = RegexRange::parse(reader)?;
        if reader.read().is_some() {
            let regex = RegexHolder::parse(reader)?;
            Ok(RegexMatcher { range, regex })
        } else {
            Err(Error { kind: ErrorKind::ExpectedDelimiterChar, range: reader.position()..reader.position() })
        }
    }

    /// The text of `value` from the start of match number `start` (zero-based) to the end
    /// of the last of at most `length` matches.
    pub fn find_range(&self, value: &str, start: usize, length: Option<usize>) -> (s: String)
        ensures
            s@ == window_text(value@, regex_match_spans(self.regex@, value@), start as nat, opt_nat(length)),
            spans_in_order(value@, regex_match_spans(self.regex@, value@)),
            regex_match_spans(self.regex@, value@).len() <= usize::MAX,
            ({
                let spans = regex_match_spans(self.regex@, value@);
                let last = last_of_window(spans.len(), start as nat, opt_nat(length));
                (start as nat) < spans.len() ==> text_between(value@, spans[start as int].0 as nat, spans[last as int].1 as nat)
                    == Some(s@)
            }),
    {
        let spans = self.regex.match_spans(value);
        proof {
            if (start as nat) < spans@.len() {
                lemma_window_is_text_between(value@, spans@, start as nat, opt_nat(length));
            }
        }
        window_of_matches(value, &spans, start, length)
    }

    /// The text of `value` that the range of matches selects.
    pub fn find(&self, value: &str) -> (s: String)
        requires
            self.range.1 matches Some(e) ==> self.range.0 <= e,
        ensures
            s@ == window_text(
                value@,
                crate::regexp::regex_match_spans(self.regex@, value@),
                self.range.0 as nat,
                self.range.length_spec(),
            ),
    {
        self.find_range(value, self.range.start(), self.range.length())
    }

    /// The text of `value` that the range of matches selects, matches counted from the last.
    pub fn find_rev(&self, value: &str) -> (s: String)
        requires
            self.range.1 matches Some(e) ==> self.range.0 <= e,
        ensures
            ({
                let spans = crate::regexp::regex_match_spans(self.regex@, value@);
                match backward_window(spans.len(), self.range.0 as nat, self.range.length_spec()) {
                    Some((first, length)) => s@ == window_text(value@, spans, first, Some(length)),
                    None => s@ == Seq::<char>::empty(),
                }
            }),
    {
        let spans = self.regex.match_spans(value);
        let count = spans.len();
        let start = self.range.start();
        if start < count {
            let end = count - start;
            let first = match self.range.length() {
                Some(length) => {
                    if end > length {
                        end - length
                    } else {
                        0
                    }
                },
                None => 0,
            };
            window_of_matches(value, &spans, first, Some(end - first))
        } else {
            String::new()
        }
    }

    /// How the matcher is shown: `RANGE of 'REGEX'`.
    pub open spec fn display(&self) -> Seq<char> {
        self.range.display() + " of '"@ + self.regex@ + "'"@
    }

    /// How the matcher is shown.
    pub fn to_display_string(&self) -> (s: String)
        ensures
            s@ == self.display(),
    {
        let mut s = self.range.to_display_string();
        s.append(" of '");
        s.append(self.regex.as_str());
        s.append("'");
        s
    }
}

impl RegexRange {
    /// The length of the range as a plain value, if it has an end.
    pub open spec fn length_spec(&self) -> Option<nat> {
        match self.1 {
            Some(e) => Some((e - self.0) as nat),
            None => None,
        }
    }
}

} // verus!
