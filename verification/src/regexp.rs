use vstd::prelude::*;
use crate::chars::Chars;
use crate::parse::{AnyString, Error, ErrorKind, ErrorKindView, ErrorView, Result, error_at};
use crate::reader::Reader;
use crate::output::starts_at;

verus! {

/// A compiled regular expression of the `regex` crate.
#[verifier::external_type_specification]
#[verifier::external_body]
pub struct ExRegex(::regex::Regex);

/// Whether `regex::Regex::new` accepts the pattern `p`.
pub uninterp spec fn regex_valid(p: Seq<char>) -> bool;

/// What `Regex::find` on the regex compiled from `p` gives for `text`: the text of the
/// leftmost-first match, if any.
pub uninterp spec fn regex_first_match(p: Seq<char>, text: Seq<char>) -> Option<Seq<char>>;

/// What `Regex::replacen(text, 1, rep)` gives on the regex compiled from `p`.
pub uninterp spec fn regex_replace_first(p: Seq<char>, text: Seq<char>, rep: Seq<char>) -> Seq<char>;

/// What `Regex::replace_all(text, rep)` gives on the regex compiled from `p`.
pub uninterp spec fn regex_replace_all(p: Seq<char>, text: Seq<char>, rep: Seq<char>) -> Seq<char>;

/// What `Regex::captures` on the regex compiled from `p` gives for `text`: the text of each
/// capture group (group 0 is the whole match), or nothing when there is no match.
pub uninterp spec fn regex_captures(p: Seq<char>, text: Seq<char>) -> Option<Seq<Option<Seq<char>>>>;

/// What `Regex::split(text)` on the regex compiled from `p` gives: the parts of `text`
/// between the matches, in order.
pub uninterp spec fn regex_split(p: Seq<char>, text: Seq<char>) -> Seq<Seq<char>>;

/// What `Regex::find_iter(text)` on the regex compiled from `p` gives: the byte span of
/// each match, in order.
pub uninterp spec fn regex_match_spans(p: Seq<char>, text: Seq<char>) -> Seq<(usize, usize)>;

/// `regex::Regex::new`; the error is turned into its message. Whether a pattern is
/// accepted is named, not written out (the syntax takes pages).
#[verifier::external_body]
fn compile(pattern: &str) -> (r: std::result::Result<::regex::Regex, String>)
    ensures
        r is Ok <==> regex_valid(pattern@),
{
    ::regex::Regex::new(pattern).map_err(|error| error.to_string())
}

/// `Clone::clone` of `regex::Regex`. The regex value is opaque here, so nothing is stated
/// of the copy.
#[verifier::external_body]
fn clone_regex(regex: &::regex::Regex) -> (r: ::regex::Regex) {
    regex.clone()
}

/// A regular expression together with the pattern it was compiled from. A holder is made
/// only by compiling its pattern text with `Regex::new` (or by copying such a holder), so
/// its regex is always the one that `Regex::new` gives for that text.
#[derive(Debug)]
pub struct RegexHolder {
    regex: ::regex::Regex,
    source: String,
}

impl View for RegexHolder {
    type V = Seq<char>;

    /// The pattern text.
    closed spec fn view(&self) -> Seq<char> {
        self.source@
    }
}

impl PartialEq for RegexHolder {
    fn eq(&self, other: &Self) -> (r: bool) {
        crate::text::text_eq(self.source.as_str(), other.source.as_str())
    }
}

impl vstd::std_specs::cmp::PartialEqSpecImpl for RegexHolder {
    open spec fn obeys_eq_spec() -> bool {
        true
    }

    open spec fn eq_spec(&self, other: &Self) -> bool {
        self@ == other@
    }
}

/// The leftmost-first match of the holder's regex in `text`. The crate guarantees that a
/// match is a part of the text.
#[verifier::external_body]
fn find_in(holder: &RegexHolder, text: &str) -> (r: Option<String>)
    ensures
        match r {
            Some(m) => regex_first_match(holder@, text@) == Some(m@),
            None => regex_first_match(holder@, text@) is None,
        },
        r matches Some(m) ==> exists|i: int| 0 <= i && i + m@.len() <= text@.len() && #[trigger] text@.subrange(i, i + m@.len()) == m@,
{
    holder.regex.find(text).map(|m| m.as_str().to_string())
}

/// `Regex::replacen(text, 1, rep)`; the crate documents that the text comes back
/// unchanged when there is no match.
#[verifier::external_body]
fn replacen_in(holder: &RegexHolder, text: &str, rep: &str) -> (r: String)
    ensures
        r@ == regex_replace_first(holder@, text@, rep@),
        regex_first_match(holder@, text@) is None ==> r@ == text@,
{
    holder.regex.replacen(text, 1, rep).to_string()
}

/// `Regex::replace_all(text, rep)`; the crate documents that the text comes back
/// unchanged when there is no match.
#[verifier::external_body]
fn replace_all_in(holder: &RegexHolder, text: &str, rep: &str) -> (r: String)
    ensures
        r@ == regex_replace_all(holder@, text@, rep@),
        regex_first_match(holder@, text@) is None ==> r@ == text@,
{
    holder.regex.replace_all(text, rep).to_string()
}

/// `Regex::split(text)`: the parts of the text between the matches, in order.
#[verifier::external_body]
fn split_in(holder: &RegexHolder, text: &str) -> (r: Vec<String>)
    ensures
        crate::text::texts(r@) == regex_split(holder@, text@),
{
    holder.regex.split(text).map(|part| part.to_string()).collect()
}

/// Byte spans of `text` that each start no later than they end, start and end on character
/// boundaries, and do not overlap, in order.
pub open spec fn spans_in_order(text: Seq<char>, spans: Seq<(usize, usize)>) -> bool {
    &&& forall|i: int|
        0 <= i < spans.len() ==> {
            &&& (#[trigger] spans[i]).0 <= spans[i].1
            &&& exists|k: int| starts_at(text, k, spans[i].0 as nat)
            &&& exists|k: int| starts_at(text, k, spans[i].1 as nat)
        }
    &&& forall|i: int| 0 <= i < spans.len() - 1 ==> (#[trigger] spans[i]).1 <= spans[i + 1].0
}

/// `Regex::find_iter(text)`: the byte span of each match, in order. The crate documents
/// that the matches are successive and do not overlap, and that each `Match::start` and
/// `Match::end` is at most the other in that order and falls on a character boundary.
#[verifier::external_body]
fn match_spans_in(holder: &RegexHolder, text: &str) -> (r: Vec<(usize, usize)>)
    ensures
        r@ == regex_match_spans(holder@, text@),
        spans_in_order(text@, r@),
{
    holder.regex.find_iter(text).map(|m| (m.start(), m.end())).collect()
}

/// `Regex::captures`: the text of each group of the first match, if there is one.
#[verifier::external_body]
fn captures_in(holder: &RegexHolder, text: &str) -> (r: Option<Vec<Option<String>>>)
    ensures
        match r {
            Some(groups) => regex_captures(holder@, text@) matches Some(g) && g.len() == groups@.len()
                && forall|i: int| 0 <= i < groups@.len() ==> match #[trigger] groups@[i] {
                    Some(t) => g[i] == Some(t@),
                    None => g[i] is None,
                },
            None => regex_captures(holder@, text@) is None,
        },
{
    holder.regex.captures(text).map(
        |caps| caps.iter().map(|m| m.map(|m| m.as_str().to_string())).collect(),
    )
}

impl RegexHolder {
    /// Compiles `pattern`; the error carries the outside library's message.
    pub fn compile(pattern: &str) -> (r: std::result::Result<RegexHolder, String>)
        ensures
            r is Ok <==> regex_valid(pattern@),
            r matches Ok(h) ==> h@ == pattern@,
    {
        match compile(pattern) {
            Ok(regex) => Ok(RegexHolder { regex, source: crate::text::string_from_str(pattern) }),
            Err(message) => Err(message),
        }
    }

    /// Compiles `value`; an invalid pattern gives the error that a pattern reports for it.
    pub fn try_from(value: String) -> (r: std::result::Result<RegexHolder, ErrorKind>)
        ensures
            r is Ok <==> regex_valid(value@),
            r matches Ok(h) ==> h@ == value@,
            r matches Err(k) ==> k@ == ErrorKindView::RegexInvalid,
    {
        match RegexHolder::compile(value.as_str()) {
            Ok(holder) => Ok(holder),
            Err(message) => Err(ErrorKind::RegexInvalid(AnyString(message))),
        }
    }

    /// How the regex is shown: its pattern.
    pub fn to_display_string(&self) -> (s: String)
        ensures
            s@ == self@,
    {
        crate::text::string_from_str(self.source.as_str())
    }

    /// A copy of this regex, with the same pattern.
    pub fn duplicate(&self) -> (r: RegexHolder)
        ensures
            r@ == self@,
    {
        RegexHolder { regex: clone_regex(&self.regex), source: crate::text::string_from_str(self.source.as_str()) }
    }

    /// The parts of `text` between the matches of this regex, in order.
    pub fn split(&self, text: &str) -> (r: Vec<String>)
        ensures
            crate::text::texts(r@) == regex_split(self@, text@),
    {
        split_in(self, text)
    }

    /// The byte span of each match in `text`, in order.
    pub fn match_spans(&self, text: &str) -> (r: Vec<(usize, usize)>)
        ensures
            r@ == regex_match_spans(self@, text@),
            spans_in_order(text@, r@),
            regex_match_spans(self@, text@).len() <= usize::MAX,
    {
        let spans = match_spans_in(self, text);
        assert(spans@.len() == spans.len());
        spans
    }

    /// The pattern text.
    pub fn as_str(&self) -> (s: &str)
        ensures
            s@ == self@,
    {
        self.source.as_str()
    }

    /// Parses a regular expression: everything up to the end of the reader.
    pub fn parse(reader: &mut Reader) -> (r: Result<RegexHolder>)
        requires
            old(reader).wf(),
        ensures
            final(reader).wf(),
            final(reader).chars == old(reader).chars,
            crate::parse::error_within(r, old(reader).end_pos()),
            final(reader).index == old(reader).chars@.len(),
            ({
                let text = crate::chars::chars_values(old(reader).rest());
                if old(reader).rest().len() == 0 {
                    crate::parse::result_view(r) == Err::<Seq<char>, ErrorView>(
                        error_at(ErrorKindView::ExpectedRegex, old(reader).pos(), old(reader).pos()),
                    )
                } else if regex_valid(text) {
                    r matches Ok(h) && h@ == text
                } else {
                    crate::parse::result_view(r) == Err::<Seq<char>, ErrorView>(
                        error_at(ErrorKindView::RegexInvalid, old(reader).pos(), old(reader).end_pos()),
                    )
                }
            }),
    {
        let start = reader.position();
        let value = reader.read_to_end();
        if value.len() == 0 {
            return Err(Error { kind: ErrorKind::ExpectedRegex, range: start..start });
        }
        let text = Chars::from(value.as_slice()).to_string();
        assert(text@ == crate::chars::chars_values(old(reader).rest()));
        match RegexHolder::compile(text.as_str()) {
            Ok(holder) => Ok(holder),
            Err(message) => {
                let end = reader.position();
                assert(end == old(reader).end_pos()) by {
                    assert(reader.chars@.take(reader.index as int) =~= reader.chars@);
                }
                Err(Error { kind: ErrorKind::RegexInvalid(AnyString(message)), range: start..end })
            },
        }
    }

    /// The text of the first match in `text`, if any.
    pub fn find(&self, text: &str) -> (r: Option<String>)
        ensures
            match r {
                Some(m) => regex_first_match(self@, text@) == Some(m@),
                None => regex_first_match(self@, text@) is None,
            },
    {
        find_in(self, text)
    }

    /// `text` with the first match replaced by `rep` (`$N` refers to group `N`).
    pub fn replace_first(&self, text: &str, rep: &str) -> (r: String)
        ensures
            r@ == regex_replace_first(self@, text@, rep@),
            regex_first_match(self@, text@) is None ==> r@ == text@,
    {
        replacen_in(self, text, rep)
    }

    /// `text` with every match replaced by `rep` (`$N` refers to group `N`).
    pub fn replace_all(&self, text: &str, rep: &str) -> (r: String)
        ensures
            r@ == regex_replace_all(self@, text@, rep@),
            regex_first_match(self@, text@) is None ==> r@ == text@,
    {
        replace_all_in(self, text, rep)
    }

    /// The groups captured by the first match in `text`, if any.
    pub fn captures(&self, text: &str) -> (r: Option<Vec<Option<String>>>)
        ensures
            captures_view(r) == regex_captures(self@, text@),
    {
        let r = captures_in(self, text);
        if let Some(groups) = &r {
            let ghost g = regex_captures(self@, text@)->0;
            assert(groups_view(groups@) =~= g);
        }
        r
    }
}

/// A captured group by view.
pub open spec fn group_view(g: Option<String>) -> Option<Seq<char>> {
    match g {
        Some(t) => Some(t@),
        None => None,
    }
}

/// Captured groups by view.
pub open spec fn groups_view(groups: Seq<Option<String>>) -> Seq<Option<Seq<char>>> {
    groups.map_values(|g: Option<String>| group_view(g))
}

/// The outcome of capturing, by view.
pub open spec fn captures_view(r: Option<Vec<Option<String>>>) -> Option<Seq<Option<Seq<char>>>> {
    match r {
        Some(groups) => Some(groups_view(groups@)),
        None => None,
    }
}

/// A replacement with each `$N` written as `${N}` (by `regex` itself, with the
/// expression `\$(\d+)`); replacements without `$` stay as they are.
pub open spec fn bracketed(s: Seq<char>) -> Seq<char> {
    if !s.contains('$') {
        s
    } else if regex_valid("\\$(\\d+)"@) {
        regex_replace_all("\\$(\\d+)"@, s, "$${${1}}"@)
    } else {
        s
    }
}

/// Rewrites each `$N` in a replacement into `${N}`, so that a group number may be
/// followed by letters.
pub fn add_capture_group_brackets(string: &str) -> (r: String)
    ensures
        r@ == bracketed(string@),
{
    let chars = crate::text::chars_of(string);
    let mut i: usize = 0;
    let mut found = false;
    while i < chars.len()
        invariant
            i <= chars@.len(),
            chars@ == string@,
            found == exists|j: int| 0 <= j < i && chars@[j] == '$',
        decreases chars.len() - i,
    {
        if chars[i] == '$' {
            found = true;
        }
        i = i + 1;
    }
    if !found {
        assert(!string@.contains('$'));
        return crate::text::string_from_str(string);
    }
    assert(string@.contains('$'));
    match RegexHolder::compile("\\$(\\d+)") {
        Ok(holder) => holder.replace_all(string, "$${${1}}"),
        Err(_) => crate::text::string_from_str(string),
    }
}

} // verus!
