use vstd::prelude::*;
use crate::filter::path::{get_parent_directory, normalize, normalized_text, parent_directory_text};
use crate::text::{all_digits, chars_of, digits_value, is_digit, string_from_chars, string_from_str, text_eq};

verus! {

/// Message for an initial value that is not a number.
pub const INIT_ERROR: &'static str = "Invalid init value";

/// Message for a step that is not a number.
pub const STEP_ERROR: &'static str = "Invalid step value";

/// The value of a decimal numeral as `u32::from_str` reads it (an optional `+`, then one or
/// more digits, and nothing else), or nothing when it is not one or does not fit in `u32`.
pub open spec fn u32_numeral_value(s: Seq<char>) -> Option<u32> {
    let digits = if s.len() > 0 && s[0] == '+' {
        s.drop_first()
    } else {
        s
    };
    if digits.len() > 0 && all_digits(digits) && digits_value(digits) <= u32::MAX {
        Some(digits_value(digits) as u32)
    } else {
        None
    }
}

/// The value of a prefix of digits is at most the value of the whole.
proof fn lemma_digits_value_prefix(s: Seq<char>, m: int)
    requires
        0 <= m <= s.len(),
    ensures
        digits_value(s.take(m)) <= digits_value(s),
    decreases s.len() - m,
{
    if m < s.len() {
        lemma_digits_value_prefix(s, m + 1);
        assert(s.take(m + 1).drop_last() =~= s.take(m));
    } else {
        assert(s.take(m) =~= s);
    }
}

/// Reads a decimal numeral as `u32::from_str` does: an optional `+`, then one or more
/// digits and nothing else, whose value fits in `u32`.
fn parse_u32(s: &str) -> (r: Option<u32>)
    ensures
        r == u32_numeral_value(s@),
{
    let chars = chars_of(s);
    let start: usize = if chars.len() > 0 && chars[0] == '+' {
        1
    } else {
        0
    };
    let ghost digits = chars@.skip(start as int);
    assert(digits =~= (if s@.len() > 0 && s@[0] == '+' {
        s@.drop_first()
    } else {
        s@
    }));
    assert(u32_numeral_value(s@) == (if digits.len() > 0 && all_digits(digits) && digits_value(digits) <= u32::MAX {
        Some(digits_value(digits) as u32)
    } else {
        None
    }));
    if chars.len() == start {
        return None;
    }
    let mut value: u32 = 0;
    let mut k: usize = start;
    assert(digits.take(0) =~= Seq::<char>::empty());
    while k < chars.len()
        invariant
            chars@ == s@,
            start <= k <= chars@.len(),
            digits == chars@.skip(start as int),
            all_digits(digits.take(k - start)),
            value as nat == digits_value(digits.take(k - start)),
            u32_numeral_value(s@) == (if digits.len() > 0 && all_digits(digits) && digits_value(digits) <= u32::MAX {
                Some(digits_value(digits) as u32)
            } else {
                None
            }),
        decreases chars.len() - k,
    {
        let c = chars[k];
        let ghost m = k - start;
        assert(digits[m] == c);
        if !('0' <= c && c <= '9') {
            assert(!is_digit(digits[m]));
            assert(!all_digits(digits));
            return None;
        }
        let d = (c as u32) - ('0' as u32);
        assert(digits.take(m + 1).drop_last() =~= digits.take(m));
        assert(digits_value(digits.take(m + 1)) == digits_value(digits.take(m)) * 10 + d);
        if value > (u32::MAX - d) / 10 {
            assert(value * 10 + d > u32::MAX) by (nonlinear_arith)
                requires
                    value > (u32::MAX - d) / 10,
                    d <= 9,
            ;
            proof {
                lemma_digits_value_prefix(digits, m + 1);
            }
            return None;
        }
        assert(value * 10 + d <= u32::MAX) by (nonlinear_arith)
            requires
                value <= (u32::MAX - d) / 10,
                d <= 9,
        ;
        value = value * 10 + d;
        assert forall|j: int| 0 <= j < m + 1 implies #[trigger] is_digit(digits.take(m + 1)[j]) by {
            if j < m {
                assert(digits.take(m + 1)[j] == digits.take(m)[j]);
            }
        }
        k = k + 1;
    }
    assert(digits.take(k - start) =~= digits);
    Some(value)
}

/// The index of the first `c` in `s`, if any.
pub open spec fn index_of(s: Seq<char>, c: char) -> Option<int>
    decreases s.len(),
{
    if s.len() == 0 {
        None
    } else if s[0] == c {
        Some(0)
    } else {
        match index_of(s.drop_first(), c) {
            Some(i) => Some(i + 1),
            None => None,
        }
    }
}

/// `k` is the first index of `c` in `s`, or `c` does not occur and `k` is the length.
proof fn lemma_index_of(s: Seq<char>, c: char, k: int)
    requires
        0 <= k <= s.len(),
        forall|j: int| 0 <= j < k ==> s[j] != c,
        k < s.len() ==> s[k] == c,
    ensures
        index_of(s, c) == if k < s.len() {
            Some(k)
        } else {
            None::<int>
        },
    decreases k,
{
    if s.len() > 0 && k > 0 {
        assert forall|j: int| 0 <= j < k - 1 implies s.drop_first()[j] != c by {
            assert(s.drop_first()[j] == s[j + 1]);
        }
        if k < s.len() {
            assert(s.drop_first()[k - 1] == s[k]);
        }
        lemma_index_of(s.drop_first(), c, k - 1);
    }
}

/// The initial value and step that the text of a counter setting gives (`A` or `A:B`;
/// the step is one when it is not given), or the message of its error.
pub open spec fn config_from_text(s: Seq<char>) -> std::result::Result<(u32, u32), Seq<char>> {
    match index_of(s, ':') {
        Some(k) => match u32_numeral_value(s.take(k)) {
            None => Err(INIT_ERROR@),
            Some(init) => if k < s.len() - 1 {
                match u32_numeral_value(s.skip(k + 1)) {
                    None => Err(STEP_ERROR@),
                    Some(step) => Ok((init, step)),
                }
            } else {
                Err(STEP_ERROR@)
            },
        },
        None => match u32_numeral_value(s) {
            None => Err(INIT_ERROR@),
            Some(init) => Ok((init, 1)),
        },
    }
}

/// How a counter starts and grows.
#[derive(Debug, Copy, Clone, PartialEq, Eq, Structural)]
pub struct Config {
    pub init: u32,
    pub step: u32,
}

impl Default for Config {
    fn default() -> (c: Config)
        ensures
            c.init == 1 && c.step == 1,
    {
        Config { init: 1, step: 1 }
    }
}

impl Config {
    /// Reads a counter setting: `A` (start at `A`, step one) or `A:B` (start at `A`, step `B`).
    pub fn from_str(string: &str) -> (r: std::result::Result<Config, &'static str>)
        ensures
            match config_from_text(string@) {
                Ok((init, step)) => r == Ok::<Config, &'static str>(Config { init, step }),
                Err(message) => r matches Err(e) && e@ == message,
            },
    {
        let chars = chars_of(string);
        let mut k: usize = 0;
        while k < chars.len() && chars[k] != ':'
            invariant
                k <= chars@.len(),
                forall|j: int| 0 <= j < k ==> chars@[j] != ':',
            decreases chars.len() - k,
        {
            k = k + 1;
        }
        proof {
            lemma_index_of(chars@, ':', k as int);
        }
        if k < chars.len() {
            let head = string_from_chars(vstd::slice::slice_subrange(chars.as_slice(), 0, k));
            assert(head@ =~= string@.take(k as int));
            let init = match parse_u32(head.as_str()) {
                Some(v) => v,
                None => {
                    return Err(INIT_ERROR);
                },
            };
            if k < chars.len() - 1 {
                let tail = string_from_chars(vstd::slice::slice_subrange(chars.as_slice(), k + 1, chars.len()));
                assert(tail@ =~= string@.skip(k + 1));
                match parse_u32(tail.as_str()) {
                    Some(step) => Ok(Config { init, step }),
                    None => Err(STEP_ERROR),
                }
            } else {
                Err(STEP_ERROR)
            }
        } else {
            match parse_u32(string) {
                Some(init) => Ok(Config { init, step: 1 }),
                None => Err(INIT_ERROR),
            }
        }
    }
}

/// A counter shared by all values.
#[derive(Debug, PartialEq, Eq, Structural)]
pub struct GlobalGenerator {
    pub value: u32,
    pub step: u32,
}

impl GlobalGenerator {
    /// A counter that starts at `init` and grows by `step`.
    pub fn new(init: u32, step: u32) -> (g: GlobalGenerator)
        ensures
            g.value == init,
            g.step == step,
    {
        GlobalGenerator { value: init, step }
    }

    /// A counter set up as `config` says.
    pub fn from(config: &Config) -> (g: GlobalGenerator)
        ensures
            g.value == config.init,
            g.step == config.step,
    {
        Self::new(config.init, config.step)
    }

    /// The current value; the counter then grows by its step.
    pub fn next(&mut self) -> (r: u32)
        requires
            old(self).value + old(self).step <= u32::MAX,
        ensures
            r == old(self).value,
            final(self).value == old(self).value + old(self).step,
            final(self).step == old(self).step,
    {
        let value = self.value;
        self.value = self.value + self.step;
        value
    }
}

/// The directory that the local counter of a value is kept for: its normalized parent.
pub open spec fn directory_key(value: Seq<char>) -> Seq<char> {
    normalized_text(parent_directory_text(value))
}

/// The counters kept for `keys`, with the values `counts`.
pub open spec fn counters(keys: Seq<String>, counts: Seq<u32>) -> Map<Seq<char>, u32>
    decreases keys.len(),
{
    if keys.len() == 0 || counts.len() == 0 {
        Map::empty()
    } else {
        counters(keys.drop_last(), counts.drop_last()).insert(keys.last()@, counts.last())
    }
}

/// A counter kept per directory.
#[derive(Debug, PartialEq)]
pub struct LocalGenerator {
    pub keys: Vec<String>,
    pub counts: Vec<u32>,
    pub init: u32,
    pub step: u32,
}

impl View for LocalGenerator {
    type V = Map<Seq<char>, u32>;

    /// The current value of the counter of each directory seen so far.
    open spec fn view(&self) -> Map<Seq<char>, u32> {
        counters(self.keys@, self.counts@)
    }
}

/// The counters hold one value per key, and each key once.
pub open spec fn distinct_keys(keys: Seq<String>) -> bool {
    forall|i: int, j: int| 0 <= i < j < keys.len() ==> keys[i]@ != keys[j]@
}

/// The counters hold the key with index `i`, with its count; keys that no index holds are absent.
proof fn lemma_counters_index(keys: Seq<String>, counts: Seq<u32>)
    requires
        keys.len() == counts.len(),
        distinct_keys(keys),
    ensures
        forall|i: int| 0 <= i < keys.len() ==> counters(keys, counts).contains_key(#[trigger] keys[i]@) && counters(
            keys,
            counts,
        )[keys[i]@] == counts[i],
        forall|k: Seq<char>|
            #[trigger] counters(keys, counts).contains_key(k) ==> exists|i: int| 0 <= i < keys.len() && keys[i]@ == k,
    decreases keys.len(),
{
    if keys.len() > 0 {
        let n = keys.len() - 1;
        lemma_counters_index(keys.drop_last(), counts.drop_last());
        assert forall|i: int| 0 <= i < keys.len() implies counters(keys, counts).contains_key(#[trigger] keys[i]@)
            && counters(keys, counts)[keys[i]@] == counts[i] by {
            if i < n {
                assert(keys.drop_last()[i] == keys[i]);
                assert(counts.drop_last()[i] == counts[i]);
                assert(keys[i]@ != keys[n]@);
            }
        }
        assert forall|k: Seq<char>| #[trigger] counters(keys, counts).contains_key(k) implies exists|i: int|
            0 <= i < keys.len() && keys[i]@ == k by {
            if k != keys[n]@ {
                assert(counters(keys.drop_last(), counts.drop_last()).contains_key(k));
                let i = choose|i: int| 0 <= i < keys.drop_last().len() && keys.drop_last()[i]@ == k;
                assert(keys[i] == keys.drop_last()[i]);
            }
        }
    }
}

/// Changing the count with index `i` changes the counter of its key alone.
proof fn lemma_counters_update(keys: Seq<String>, counts: Seq<u32>, i: int, v: u32)
    requires
        keys.len() == counts.len(),
        distinct_keys(keys),
        0 <= i < keys.len(),
    ensures
        counters(keys, counts.update(i, v)) == counters(keys, counts).insert(keys[i]@, v),
    decreases keys.len(),
{
    let n = keys.len() - 1;
    if i == n {
        assert(counts.update(i, v).drop_last() =~= counts.drop_last());
    } else {
        assert(counts.update(i, v).drop_last() =~= counts.drop_last().update(i, v));
        assert(keys.drop_last()[i] == keys[i]);
        lemma_counters_update(keys.drop_last(), counts.drop_last(), i, v);
        assert(keys[i]@ != keys[n]@);
    }
    assert(counters(keys, counts.update(i, v)) =~= counters(keys, counts).insert(keys[i]@, v));
}

impl LocalGenerator {
    /// Each directory has one counter.
    pub open spec fn wf(&self) -> bool {
        &&& self.keys@.len() == self.counts@.len()
        &&& distinct_keys(self.keys@)
    }

    /// Counters that start at `init` and grow by `step`, none of them used yet.
    pub fn new(init: u32, step: u32) -> (g: LocalGenerator)
        ensures
            g.wf(),
            g@ == Map::<Seq<char>, u32>::empty(),
            g.init == init,
            g.step == step,
    {
        LocalGenerator { keys: Vec::new(), counts: Vec::new(), init, step }
    }

    /// Counters set up as `config` says.
    pub fn from(config: &Config) -> (g: LocalGenerator)
        ensures
            g.wf(),
            g@ == Map::<Seq<char>, u32>::empty(),
            g.init == config.init,
            g.step == config.step,
    {
        Self::new(config.init, config.step)
    }

    /// Whether the counter of the directory of `value` can take its next value without
    /// going beyond `u32::MAX`.
    pub fn can_advance(&self, value: &str) -> (r: bool)
        requires
            self.wf(),
        ensures
            r == (self@.contains_key(directory_key(value@)) ==> self@[directory_key(value@)] + self.step <= u32::MAX),
    {
        let key = match get_parent_directory(string_from_str(value)) {
            Ok(parent) => match normalize(parent.as_str()) {
                Ok(normalized) => normalized,
                Err(_) => String::new(),
            },
            Err(_) => String::new(),
        };
        proof {
            lemma_counters_index(self.keys@, self.counts@);
        }
        let mut i: usize = 0;
        while i < self.keys.len()
            invariant
                self.wf(),
                key@ == directory_key(value@),
                forall|j: int|
                    0 <= j < self.keys@.len() ==> self@.contains_key(#[trigger] self.keys@[j]@) && self@[self.keys@[j]@]
                        == self.counts@[j],
                forall|k: Seq<char>|
                    #[trigger] self@.contains_key(k) ==> exists|j: int| 0 <= j < self.keys@.len() && self.keys@[j]@ == k,
                i <= self.keys@.len(),
                forall|j: int| 0 <= j < i ==> self.keys@[j]@ != key@,
            decreases self.keys.len() - i,
        {
            if text_eq(self.keys[i].as_str(), key.as_str()) {
                return self.counts[i] <= u32::MAX - self.step;
            }
            i = i + 1;
        }
        true
    }

    /// The next value of the counter of the directory of `value`: the initial value the
    /// first time, then the previous value plus the step.
    pub fn next(&mut self, value: &str) -> (r: u32)
        requires
            old(self).wf(),
            old(self)@.contains_key(directory_key(value@)) ==> old(self)@[directory_key(value@)] + old(self).step
                <= u32::MAX,
        ensures
            final(self).wf(),
            final(self).init == old(self).init,
            final(self).step == old(self).step,
            r == if old(self)@.contains_key(directory_key(value@)) {
                (old(self)@[directory_key(value@)] + old(self).step) as u32
            } else {
                old(self).init
            },
            final(self)@ == old(self)@.insert(directory_key(value@), r),
    {
        let key = match get_parent_directory(string_from_str(value)) {
            Ok(parent) => match normalize(parent.as_str()) {
                Ok(normalized) => normalized,
                Err(_) => String::new(),
            },
            Err(_) => String::new(),
        };
        assert(key@ == directory_key(value@));
        proof {
            lemma_counters_index(self.keys@, self.counts@);
        }
        let mut i: usize = 0;
        while i < self.keys.len()
            invariant
                self.wf(),
                self.keys == old(self).keys,
                self.counts == old(self).counts,
                self.init == old(self).init,
                self.step == old(self).step,
                key@ == directory_key(value@),
                self@.contains_key(key@) ==> self@[key@] + self.step <= u32::MAX,
                forall|j: int|
                    0 <= j < self.keys@.len() ==> self@.contains_key(#[trigger] self.keys@[j]@) && self@[self.keys@[j]@]
                        == self.counts@[j],
                i <= self.keys@.len(),
                forall|j: int| 0 <= j < i ==> self.keys@[j]@ != key@,
            decreases self.keys.len() - i,
        {
            if text_eq(self.keys[i].as_str(), key.as_str()) {
                let next = self.counts[i] + self.step;
                proof {
                    lemma_counters_update(self.keys@, self.counts@, i as int, next);
                }
                self.counts.set(i, next);
                return next;
            }
            i = i + 1;
        }
        assert(!self@.contains_key(key@));
        let ghost old_keys = self.keys@;
        let ghost old_counts = self.counts@;
        let init = self.init;
        self.keys.push(key);
        self.counts.push(init);
        assert(self.keys@.drop_last() =~= old_keys);
        assert(self.counts@.drop_last() =~= old_counts);
        init
    }
}

} // verus!
