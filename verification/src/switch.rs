use vstd::prelude::*;
use crate::chars::{Char, Chars, chars_values, lemma_chars_width_concat, lemma_chars_width_prefix, lemma_chars_width_step};
use crate::escape::{escape_str, escaped_text};
use crate::parse::{Error, ErrorKind, ErrorKindView, ErrorView, Result, error_at};
use crate::reader::{Cursor, Reader, first_with_value, lemma_first_with_value_props};
use crate::regexp::{RegexHolder, add_capture_group_brackets, bracketed, regex_first_match, regex_replace_first, regex_valid};
use crate::text::{contains_char, string_from_str, text_eq};

verus! {

/// A case of a switch: when the matcher finds a match, the output is the result.
#[derive(Debug)]
pub struct Case {
    pub matcher: RegexHolder,
    pub result: String,
}

/// The mathematical content of a [`Case`]: the matcher's pattern and the result.
pub struct CaseView {
    pub matcher: Seq<char>,
    pub result: Seq<char>,
}

impl View for Case {
    type V = CaseView;

    open spec fn view(&self) -> CaseView {
        CaseView { matcher: self.matcher@, result: self.result@ }
    }
}

impl PartialEq for Case {
    fn eq(&self, other: &Self) -> (r: bool) {
        text_eq(self.matcher.as_str(), other.matcher.as_str()) && text_eq(self.result.as_str(), other.result.as_str())
    }
}

impl vstd::std_specs::cmp::PartialEqSpecImpl for Case {
    open spec fn obeys_eq_spec() -> bool {
        true
    }

    open spec fn eq_spec(&self, other: &Self) -> bool {
        self@ == other@
    }
}

/// An output chosen by the first of several regular expressions that matches the input,
/// with a default when none does.
#[derive(Debug)]
pub struct RegexSwitch {
    pub cases: Vec<Case>,
    pub default: String,
}

/// The views of a sequence of cases.
pub open spec fn case_views(cases: Seq<Case>) -> Seq<CaseView> {
    cases.map_values(|c: Case| c@)
}

/// The mathematical content of a [`RegexSwitch`].
pub struct RegexSwitchView {
    pub cases: Seq<CaseView>,
    pub default: Seq<char>,
}

impl View for RegexSwitch {
    type V = RegexSwitchView;

    open spec fn view(&self) -> RegexSwitchView {
        RegexSwitchView { cases: case_views(self.cases@), default: self.default@ }
    }
}

impl PartialEq for RegexSwitch {
    fn eq(&self, other: &Self) -> (r: bool) {
        if self.cases.len() != other.cases.len() || !text_eq(self.default.as_str(), other.default.as_str()) {
            proof {
                if self.cases.len() != other.cases.len() {
                    assert(case_views(self.cases@).len() != case_views(other.cases@).len());
                }
            }
            return false;
        }
        let mut i: usize = 0;
        while i < self.cases.len()
            invariant
                i <= self.cases@.len(),
                self.cases@.len() == other.cases@.len(),
                forall|j: int| 0 <= j < i ==> self.cases@[j]@ == other.cases@[j]@,
            decreases self.cases.len() - i,
        {
            if !(self.cases[i] == other.cases[i]) {
                assert(case_views(self.cases@)[i as int] != case_views(other.cases@)[i as int]);
                return false;
            }
            i = i + 1;
        }
        assert(case_views(self.cases@) =~= case_views(other.cases@));
        true
    }
}

impl vstd::std_specs::cmp::PartialEqSpecImpl for RegexSwitch {
    open spec fn obeys_eq_spec() -> bool {
        true
    }

    open spec fn eq_spec(&self, other: &Self) -> bool {
        self@ == other@
    }
}

/// The outcome of a switch with its cases and default (as views), with the index of the
/// reader afterwards.
pub type SwitchOutcome = (std::result::Result<(Seq<CaseView>, Seq<char>), ErrorView>, int);

/// What reading the cases of a switch delimited by `d` gives, from index `i` of `chars` on,
/// when `n` cases were read before. Each case is a matcher and a result, each followed by
/// the delimiter; what is left when no delimiter follows is the default.
pub open spec fn switch_cases(chars: Seq<Char>, i: int, d: Char, n: nat) -> SwitchOutcome
    decreases chars.len() - i,
{
    if i < 0 || i > chars.len() {
        (Ok((Seq::empty(), Seq::empty())), i)
    } else {
        let r = Cursor { chars, index: i };
        let rest = chars.skip(i);
        match first_with_value(rest, d.value()) {
            None => (Ok((Seq::empty(), chars_values(rest))), chars.len() as int),
            Some(k) => {
                proof {
                    lemma_first_with_value_props(rest, d.value());
                }
                let start = r.pos();
                let end = r.pos_at(i + k);
                if k == 0 {
                    (
                        Err(error_at(ErrorKindView::RegexSwitchWithoutMatcher(d, (2 * n) as usize), (start - d.width()) as nat, end)),
                        i + 1,
                    )
                } else if !regex_valid(chars_values(rest.take(k))) {
                    (Err(error_at(ErrorKindView::RegexInvalid, start, end)), i + k + 1)
                } else {
                    let j = i + k + 1;
                    let after = chars.skip(j);
                    proof {
                        lemma_first_with_value_props(after, d.value());
                    }
                    let (result, j2) = match first_with_value(after, d.value()) {
                        Some(k2) => (chars_values(after.take(k2)), j + k2 + 1),
                        None => (chars_values(after), chars.len() as int),
                    };
                    let rec = switch_cases(chars, j2, d, n + 1);
                    let case = CaseView { matcher: chars_values(rest.take(k)), result };
                    (
                        match rec.0 {
                            Ok((cases, default)) => Ok((seq![case] + cases, default)),
                            Err(e) => Err(e),
                        },
                        rec.1,
                    )
                }
            },
        }
    }
}

/// The outcome after cases `prefix` were already read.
pub open spec fn after_cases(prefix: Seq<CaseView>, o: SwitchOutcome) -> SwitchOutcome {
    (
        match o.0 {
            Ok((cases, default)) => Ok((prefix + cases, default)),
            Err(e) => Err(e),
        },
        o.1,
    )
}

/// What parsing a switch `:X1:Y1:...:Xn:Yn:D` from `r` gives, with the index of the reader
/// afterwards. The first character is the delimiter.
pub open spec fn switch_result(r: Cursor) -> SwitchOutcome {
    if r.index >= r.chars.len() {
        (Err(error_at(ErrorKindView::ExpectedRegexSwitch, r.pos(), r.end_pos())), r.index)
    } else {
        switch_cases(r.chars, r.index + 1, r.chars[r.index], 0)
    }
}

/// What a switch gives for `value`: the result of the first case whose matcher finds a
/// match (where the result holds `$`, the match with the result as replacement, groups
/// referred to by number), or the default.
pub open spec fn switch_value(cases: Seq<CaseView>, default: Seq<char>, value: Seq<char>) -> Seq<char>
    decreases cases.len(),
{
    if cases.len() == 0 {
        default
    } else {
        let c = cases[0];
        match regex_first_match(c.matcher, value) {
            Some(m) => case_output(c, m),
            None => switch_value(cases.drop_first(), default, value),
        }
    }
}

/// What one case gives for `value` once its matcher has found the match `m`.
pub open spec fn case_output(c: CaseView, m: Seq<char>) -> Seq<char> {
    if c.result.contains('$') {
        regex_replace_first(c.matcher, m, bracketed(c.result))
    } else {
        c.result
    }
}

/// Case `k` is the first whose matcher finds a match in `value`.
pub open spec fn first_matching(cases: Seq<CaseView>, value: Seq<char>, k: int) -> bool {
    &&& 0 <= k < cases.len()
    &&& forall|i: int| 0 <= i < k ==> regex_first_match(#[trigger] cases[i].matcher, value) is None
    &&& regex_first_match(cases[k].matcher, value) is Some
}

/// A switch gives its default, taken as it is, when no case's matcher finds a match in the
/// value; otherwise it gives what the first case whose matcher finds one makes of its
/// match.
pub proof fn lemma_switch_first_match(cases: Seq<CaseView>, default: Seq<char>, value: Seq<char>)
    ensures
        (forall|i: int| 0 <= i < cases.len() ==> regex_first_match(#[trigger] cases[i].matcher, value) is None)
            ==> switch_value(cases, default, value) == default,
        forall|k: int|
            #[trigger] first_matching(cases, value, k) ==> switch_value(cases, default, value) == case_output(
                cases[k],
                regex_first_match(cases[k].matcher, value)->0,
            ),
    decreases cases.len(),
{
    if cases.len() > 0 {
        let rest = cases.drop_first();
        lemma_switch_first_match(rest, default, value);
        assert forall|k: int| #[trigger] first_matching(cases, value, k) implies switch_value(cases, default, value)
            == case_output(cases[k], regex_first_match(cases[k].matcher, value)->0) by {
            if k > 0 {
                assert(regex_first_match(cases[0].matcher, value) is None);
                assert(rest[k - 1] == cases[k]);
                assert forall|i: int| 0 <= i < k - 1 implies regex_first_match(#[trigger] rest[i].matcher, value) is None by {
                    assert(rest[i] == cases[i + 1]);
                }
                assert(first_matching(rest, value, k - 1));
            }
        }
        if forall|i: int| 0 <= i < cases.len() ==> regex_first_match(#[trigger] cases[i].matcher, value) is None {
            assert(regex_first_match(cases[0].matcher, value) is None);
            assert forall|i: int| 0 <= i < rest.len() implies regex_first_match(#[trigger] rest[i].matcher, value) is None by {
                assert(rest[i] == cases[i + 1]);
            }
        }
    }
}

/// How one case is shown (the first without `else`).
pub open spec fn case_text(c: CaseView, first: bool) -> Seq<char> {
    "\n    "@ + (if first {
        Seq::empty()
    } else {
        "else "@
    }) + "if input matches '"@ + c.matcher + "'\n        output is '"@ + escaped_text(c.result) + "'"@
}

/// How the cases are shown, one after another.
pub open spec fn cases_text(cases: Seq<CaseView>) -> Seq<char>
    decreases cases.len(),
{
    if cases.len() == 0 {
        Seq::empty()
    } else {
        cases_text(cases.drop_last()) + case_text(cases.last(), cases.len() == 1)
    }
}

impl RegexSwitch {
    /// Parses a switch `:X1:Y1:...:Xn:Yn:D`: the first character is the delimiter, each
    /// matcher `X` must be a valid regular expression.
    #[verifier::rlimit(30)]
    pub fn parse(reader: &mut Reader) -> (r: Result<RegexSwitch>)
        requires
            old(reader).wf(),
        ensures
            final(reader).wf(),
            final(reader).chars == old(reader).chars,
            crate::parse::error_within(r, old(reader).end_pos()),
            final(reader).index == switch_result(old(reader)@).1,
            match (r, switch_result(old(reader)@).0) {
                (Ok(s), Ok((cases, default))) => s@ == RegexSwitchView { cases, default },
                (Err(e), Err(f)) => e@ == f,
                _ => false,
            },
    {
        let ghost r0 = *reader;
        let delimiter = match reader.read() {
            Some(d) => d,
            None => {
                return Err(Error { kind: ErrorKind::ExpectedRegexSwitch, range: reader.position()..reader.end() });
            },
        };
        proof {
            lemma_chars_width_step(r0.chars@, r0.index as int);
            lemma_chars_width_prefix(r0.chars@, 0, r0.index as int);
        }
        let mut cases: Vec<Case> = Vec::new();
        assert(after_cases(case_views(cases@), switch_cases(reader.chars@, reader.index as int, delimiter, 0)) == switch_result(r0@)) by {
            assert(case_views(cases@) =~= Seq::<CaseView>::empty());
            let o = switch_cases(reader.chars@, reader.index as int, delimiter, 0);
            if let Ok((cs, df)) = o.0 {
                assert(Seq::<CaseView>::empty() + cs =~= cs);
            }
        }
        loop
            invariant
                reader.wf(),
                r0 == *old(reader),
                reader.chars == r0.chars,
                r0.index < reader.index,
                delimiter == r0.chars@[r0.index as int],
                reader.pos() >= delimiter.width(),
                2 * cases@.len() < reader.index,
                after_cases(case_views(cases@), switch_cases(reader.chars@, reader.index as int, delimiter, cases@.len()))
                    == switch_result(r0@),
            decreases reader.chars@.len() - reader.index,
        {
            let ghost r1 = *reader;
            let ghost i = reader.index as int;
            let ghost rest = reader.rest();
            let value_start = reader.position();
            let value = reader.read_until(&delimiter);
            proof {
                lemma_first_with_value_props(rest, delimiter.value());
                let k = value@.len() as int;
                assert(r1.chars@.take(i + k) =~= r1.chars@.take(i) + value@);
                lemma_chars_width_concat(r1.chars@.take(i), value@);
                lemma_chars_width_prefix(r1.chars@, i + k, r1.chars@.len() as int);
                assert(r1.chars@.take(r1.chars@.len() as int) =~= r1.chars@);
                if reader.index < r1.chars@.len() || first_with_value(rest, delimiter.value()) is Some {
                    lemma_chars_width_step(r1.chars@, i + k);
                } else {
                    assert(value@ =~= rest);
                    assert(r1.chars@.take(i + k) =~= r1.chars@);
                }
            }
            let value_end = value_start + Chars::from(value.as_slice()).len_utf8();
            if reader.position() > value_end {
                if value.len() == 0 {
                    let delimiter_start = value_start - delimiter.len_utf8();
                    let delimiter_index = 2 * cases.len();
                    return Err(Error {
                        kind: ErrorKind::RegexSwitchWithoutMatcher(delimiter, delimiter_index),
                        range: delimiter_start..value_end,
                    });
                }
                let text = Chars::from(value.as_slice()).to_string();
                let matcher = match RegexHolder::try_from(text) {
                    Ok(m) => m,
                    Err(kind) => {
                        return Err(Error { kind, range: value_start..value_end });
                    },
                };
                let ghost r2 = *reader;
                let result_chars = reader.read_until(&delimiter);
                let result = Chars::from(result_chars.as_slice()).to_string();
                let ghost before = case_views(cases@);
                proof {
                    lemma_first_with_value_props(r2.rest(), delimiter.value());
                    lemma_chars_width_prefix(r1.chars@, r2.index as int, reader.index as int);
                }
                cases.push(Case { matcher, result });
                proof {
                    assert(case_views(cases@) =~= before.push(cases@.last()@));
                    let o = switch_cases(reader.chars@, reader.index as int, delimiter, cases@.len());
                    assert(r2.rest() =~= r1.chars@.skip(i + value@.len() + 1));
                    if let Ok((cs, df)) = o.0 {
                        assert(before + (seq![cases@.last()@] + cs) =~= before.push(cases@.last()@) + cs);
                    }
                }
            } else {
                let default = Chars::from(value.as_slice()).to_string();
                proof {
                    assert(case_views(cases@) + Seq::<CaseView>::empty() =~= case_views(cases@));
                }
                return Ok(RegexSwitch { cases, default });
            }
        }
    }

    /// The output for `value`.
    pub fn eval(&self, value: &str) -> (s: String)
        ensures
            s@ == switch_value(case_views(self.cases@), self.default@, value@),
    {
        let mut i: usize = 0;
        assert(case_views(self.cases@).skip(0) =~= case_views(self.cases@));
        while i < self.cases.len()
            invariant
                i <= self.cases@.len(),
                switch_value(case_views(self.cases@), self.default@, value@) == switch_value(
                    case_views(self.cases@).skip(i as int),
                    self.default@,
                    value@,
                ),
            decreases self.cases.len() - i,
        {
            let case = &self.cases[i];
            let ghost tail = case_views(self.cases@).skip(i as int);
            assert(tail[0] == case@);
            match case.matcher.find(value) {
                Some(m) => {
                    if contains_char(case.result.as_str(), '$') {
                        let replacement = add_capture_group_brackets(case.result.as_str());
                        return case.matcher.replace_first(m.as_str(), replacement.as_str());
                    } else {
                        return string_from_str(case.result.as_str());
                    }
                },
                None => {
                    assert(tail.drop_first() =~= case_views(self.cases@).skip(i + 1));
                },
            }
            i = i + 1;
        }
        assert(case_views(self.cases@).skip(i as int) =~= Seq::<CaseView>::empty());
        string_from_str(self.default.as_str())
    }

    /// How the switch is shown.
    pub open spec fn display(&self) -> Seq<char> {
        let v = self@;
        if v.cases.len() == 0 {
            "constant output '"@ + escaped_text(v.default) + "'"@
        } else {
            "variable output:\n"@ + cases_text(v.cases) + "\n    else\n        output is '"@ + escaped_text(v.default)
                + "'"@
        }
    }

    /// How the switch is shown: a constant output, or each case on lines of its own.
    pub fn to_display_string(&self) -> (s: String)
        ensures
            s@ == self.display(),
    {
        if self.cases.len() == 0 {
            let mut s = string_from_str("constant output '");
            s.append(escape_str(self.default.as_str()).as_str());
            s.append("'");
            return s;
        }
        let mut s = string_from_str("variable output:\n");
        let mut i: usize = 0;
        while i < self.cases.len()
            invariant
                i <= self.cases@.len(),
                s@ == "variable output:\n"@ + cases_text(case_views(self.cases@).take(i as int)),
            decreases self.cases.len() - i,
        {
            let case = &self.cases[i];
            let ghost before = s@;
            s.append("\n    ");
            if i > 0 {
                s.append("else ");
            }
            s.append("if input matches '");
            s.append(case.matcher.as_str());
            s.append("'\n        output is '");
            s.append(escape_str(case.result.as_str()).as_str());
            s.append("'");
            proof {
                let taken = case_views(self.cases@).take(i + 1);
                assert(taken.drop_last() =~= case_views(self.cases@).take(i as int));
                assert(taken.last() == case@);
                assert(s@ =~= before + case_text(case@, i == 0));
            }
            i = i + 1;
        }
        s.append("\n    else\n        output is '");
        s.append(escape_str(self.default.as_str()).as_str());
        s.append("'");
        assert(case_views(self.cases@).take(i as int) =~= case_views(self.cases@));
        s
    }
}

} // verus!
