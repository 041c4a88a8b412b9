use vstd::prelude::*;
use crate::filter::string::{matches_at, matches_at_exec};
use crate::parse::{Separator, SeparatorView};
use crate::regexp::regex_split;
use crate::text::{chars_of, string_from_chars, string_from_str, texts};

verus! {

/// Each character of `s` as a text of its own.
pub open spec fn singles(s: Seq<char>) -> Seq<Seq<char>> {
    s.map_values(|c: char| seq![c])
}

/// The parts of `s` between occurrences of a non-empty `t`, found from left to right,
/// after `current` was read of the first part.
pub open spec fn split_from(s: Seq<char>, t: Seq<char>, current: Seq<char>) -> Seq<Seq<char>>
    decreases s.len(),
{
    if t.len() > 0 && matches_at(s, t, 0) {
        seq![current] + split_from(s.skip(t.len() as int), t, Seq::empty())
    } else if s.len() == 0 {
        seq![current]
    } else {
        split_from(s.drop_first(), t, current.push(s[0]))
    }
}

/// The parts of `s` between occurrences of `t` (what `str::split` gives: an empty `t`
/// occurs before every character and at the end).
pub open spec fn split_text(s: Seq<char>, t: Seq<char>) -> Seq<Seq<char>> {
    if t.len() == 0 {
        seq![Seq::empty()] + singles(s) + seq![Seq::empty()]
    } else {
        split_from(s, t, Seq::empty())
    }
}

/// The parts of `s` between occurrences of a non-empty `t`, found from right to left and
/// given from the last, after `current` was read of the last part.
pub open spec fn rsplit_from(s: Seq<char>, t: Seq<char>, current: Seq<char>) -> Seq<Seq<char>>
    decreases s.len(),
{
    if t.len() > 0 && matches_at(s, t, s.len() - t.len()) {
        seq![current] + rsplit_from(s.take(s.len() - t.len()), t, Seq::empty())
    } else if s.len() == 0 {
        seq![current]
    } else {
        rsplit_from(s.drop_last(), t, seq![s.last()] + current)
    }
}

/// The parts of `s` between occurrences of `t`, from the last to the first (what
/// `str::rsplit` gives).
pub open spec fn rsplit_text(s: Seq<char>, t: Seq<char>) -> Seq<Seq<char>> {
    if t.len() == 0 {
        seq![Seq::empty()] + singles(s).reverse() + seq![Seq::empty()]
    } else {
        rsplit_from(s, t, Seq::empty())
    }
}

/// Splits `value` at each occurrence of `separator`, from left to right.
pub fn split_string(value: &str, separator: &str) -> (r: Vec<String>)
    ensures
        texts(r@) == split_text(value@, separator@),
{
    let s = chars_of(value);
    let t = chars_of(separator);
    let mut parts: Vec<String> = Vec::new();
    if t.len() == 0 {
        parts.push(String::new());
        let mut i: usize = 0;
        while i < s.len()
            invariant
                i <= s@.len(),
                texts(parts@) == seq![Seq::<char>::empty()] + singles(s@.take(i as int)),
            decreases s.len() - i,
        {
            let mut single = String::new();
            crate::text::push_char(&mut single, s[i]);
            let ghost before = parts@;
            parts.push(single);
            i = i + 1;
            assert(singles(s@.take(i as int)) =~= singles(s@.take(i - 1)).push(seq![s@[i - 1]]));
            assert(texts(parts@) =~= texts(before).push(seq![s@[i - 1]]));
        }
        let ghost before = parts@;
        parts.push(String::new());
        assert(s@.take(i as int) =~= s@);
        assert(texts(parts@) =~= texts(before).push(Seq::<char>::empty()));
        return parts;
    }
    let mut start: usize = 0;
    let mut i: usize = 0;
    assert(texts(parts@) =~= Seq::<Seq<char>>::empty());
    assert(s@.subrange(0, 0) =~= Seq::<char>::empty());
    assert(s@.skip(0) =~= s@);
    assert(texts(parts@) + split_text(value@, separator@) =~= split_text(value@, separator@));
    while i < s.len()
        invariant
            s@ == value@,
            t@ == separator@,
            t@.len() > 0,
            start <= i <= s@.len(),
            split_text(value@, separator@) == texts(parts@) + split_from(s@.skip(i as int), t@, s@.subrange(start as int, i as int)),
        decreases s.len() - i,
    {
        let ghost rest = s@.skip(i as int);
        let ghost current = s@.subrange(start as int, i as int);
        if matches_at_exec(&s, &t, i) {
            assert(rest.skip(t@.len() as int) =~= s@.skip(i + t@.len()));
            assert(matches_at(rest, t@, 0)) by {
                assert(rest.subrange(0, t@.len() as int) =~= s@.subrange(i as int, i + t@.len()));
            }
            let part = string_from_chars(vstd::slice::slice_subrange(s.as_slice(), start, i));
            let ghost before = parts@;
            parts.push(part);
            i = i + t.len();
            start = i;
            assert(s@.subrange(start as int, i as int) =~= Seq::<char>::empty());
            assert(texts(parts@) =~= texts(before) + seq![current]);
        } else {
            assert(!matches_at(rest, t@, 0)) by {
                if matches_at(rest, t@, 0) {
                    assert(rest.subrange(0, t@.len() as int) =~= s@.subrange(i as int, i + t@.len()));
                }
            }
            assert(rest.drop_first() =~= s@.skip(i + 1));
            assert(current.push(rest[0]) =~= s@.subrange(start as int, i + 1));
            i = i + 1;
        }
    }
    let last = string_from_chars(vstd::slice::slice_subrange(s.as_slice(), start, s.len()));
    let ghost before = parts@;
    proof {
        let rest = s@.skip(i as int);
        assert(rest.len() == 0);
        assert(!matches_at(rest, t@, 0));
    }
    parts.push(last);
    assert(texts(parts@) =~= texts(before) + seq![s@.subrange(start as int, i as int)]);
    parts
}

/// Splits `value` at each occurrence of `separator`, from right to left.
pub fn rsplit_string(value: &str, separator: &str) -> (r: Vec<String>)
    ensures
        texts(r@) == rsplit_text(value@, separator@),
{
    let s = chars_of(value);
    let t = chars_of(separator);
    let mut parts: Vec<String> = Vec::new();
    if t.len() == 0 {
        parts.push(String::new());
        let mut i: usize = s.len();
        assert(singles(s@).reverse().take(0) =~= Seq::<Seq<char>>::empty());
        while i > 0
            invariant
                i <= s@.len(),
                texts(parts@) == seq![Seq::<char>::empty()] + singles(s@).reverse().take(s@.len() - i),
            decreases i,
        {
            i = i - 1;
            let mut single = String::new();
            crate::text::push_char(&mut single, s[i]);
            let ghost before = parts@;
            parts.push(single);
            assert(singles(s@).reverse().take(s@.len() - i) =~= singles(s@).reverse().take(s@.len() - i - 1).push(
                seq![s@[i as int]],
            ));
            assert(texts(parts@) =~= texts(before).push(seq![s@[i as int]]));
        }
        let ghost before = parts@;
        parts.push(String::new());
        assert(singles(s@).reverse().take(s@.len() as int) =~= singles(s@).reverse());
        assert(texts(parts@) =~= texts(before).push(Seq::<char>::empty()));
        return parts;
    }
    let mut end: usize = s.len();
    let mut i: usize = s.len();
    assert(texts(parts@) =~= Seq::<Seq<char>>::empty());
    assert(s@.take(s@.len() as int) =~= s@);
    assert(s@.subrange(s@.len() as int, s@.len() as int) =~= Seq::<char>::empty());
    while i > 0
        invariant
            s@ == value@,
            t@ == separator@,
            t@.len() > 0,
            i <= end <= s@.len(),
            rsplit_text(value@, separator@) == texts(parts@) + rsplit_from(s@.take(i as int), t@, s@.subrange(i as int, end as int)),
        decreases i,
    {
        let ghost rest = s@.take(i as int);
        let ghost current = s@.subrange(i as int, end as int);
        if t.len() <= i && matches_at_exec(&s, &t, i - t.len()) {
            assert(matches_at(rest, t@, rest.len() - t@.len())) by {
                assert(rest.subrange(i - t@.len(), i as int) =~= s@.subrange(i - t@.len(), i as int));
            }
            assert(rest.take(rest.len() - t@.len()) =~= s@.take(i - t@.len()));
            let part = string_from_chars(vstd::slice::slice_subrange(s.as_slice(), i, end));
            let ghost before = parts@;
            parts.push(part);
            i = i - t.len();
            end = i;
            assert(s@.subrange(i as int, end as int) =~= Seq::<char>::empty());
            assert(texts(parts@) =~= texts(before) + seq![current]);
        } else {
            assert(!matches_at(rest, t@, rest.len() - t@.len())) by {
                if matches_at(rest, t@, rest.len() - t@.len()) {
                    assert(rest.subrange(i - t@.len(), i as int) =~= s@.subrange(i - t@.len(), i as int));
                }
            }
            assert(rest.drop_last() =~= s@.take(i - 1));
            assert(seq![rest.last()] + current =~= s@.subrange(i - 1, end as int));
            i = i - 1;
        }
    }
    let last = string_from_chars(vstd::slice::slice_subrange(s.as_slice(), 0, end));
    let ghost before = parts@;
    proof {
        let rest = s@.take(0);
        assert(rest.len() == 0);
        assert(!matches_at(rest, t@, rest.len() - t@.len()));
    }
    parts.push(last);
    assert(texts(parts@) =~= texts(before) + seq![s@.subrange(0, end as int)]);
    parts
}

/// The parts joined back together, with `t` between each two of them.
pub open spec fn join(parts: Seq<Seq<char>>, t: Seq<char>) -> Seq<char>
    decreases parts.len(),
{
    if parts.len() == 0 {
        Seq::empty()
    } else if parts.len() == 1 {
        parts[0]
    } else {
        parts[0] + t + join(parts.drop_first(), t)
    }
}

proof fn lemma_split_from_join(s: Seq<char>, t: Seq<char>, current: Seq<char>)
    requires
        t.len() > 0,
    ensures
        split_from(s, t, current).len() >= 1,
        join(split_from(s, t, current), t) == current + s,
    decreases s.len(),
{
    if matches_at(s, t, 0) {
        let rest = s.skip(t.len() as int);
        lemma_split_from_join(rest, t, Seq::empty());
        let parts = split_from(s, t, current);
        assert(parts.drop_first() =~= split_from(rest, t, Seq::empty()));
        assert(Seq::<char>::empty() + rest =~= rest);
        assert(s =~= t + rest) by {
            assert(s.subrange(0, t.len() as int) == t);
        }
        assert(current + t + rest =~= current + s);
    } else if s.len() == 0 {
        assert(current + s =~= current);
    } else {
        lemma_split_from_join(s.drop_first(), t, current.push(s[0]));
        assert(current.push(s[0]) + s.drop_first() =~= current + s);
    }
}

proof fn lemma_singles_join(s: Seq<char>)
    ensures
        join(singles(s) + seq![Seq::<char>::empty()], Seq::empty()) == s,
    decreases s.len(),
{
    let parts = singles(s) + seq![Seq::<char>::empty()];
    if s.len() == 0 {
        assert(parts =~= seq![Seq::<char>::empty()]);
    } else {
        lemma_singles_join(s.drop_first());
        assert(parts.drop_first() =~= singles(s.drop_first()) + seq![Seq::<char>::empty()]);
        assert(seq![s[0]] + Seq::<char>::empty() + s.drop_first() =~= s);
    }
}

/// Joining the parts that splitting gives, with the separator between each two of them,
/// gives back the value.
pub proof fn lemma_split_join(s: Seq<char>, t: Seq<char>)
    ensures
        join(split_text(s, t), t) == s,
{
    if t.len() == 0 {
        let inner = singles(s) + seq![Seq::<char>::empty()];
        lemma_singles_join(s);
        let parts = split_text(s, t);
        assert(parts.drop_first() =~= inner);
        assert(parts.len() >= 2);
        assert(Seq::<char>::empty() + t + s =~= s);
    } else {
        lemma_split_from_join(s, t, Seq::empty());
        assert(Seq::<char>::empty() + s =~= s);
    }
}

proof fn lemma_join_push(parts: Seq<Seq<char>>, t: Seq<char>, last: Seq<char>)
    requires
        parts.len() >= 1,
    ensures
        join(parts.push(last), t) == join(parts, t) + t + last,
    decreases parts.len(),
{
    if parts.len() == 1 {
        assert(parts.push(last).drop_first() =~= seq![last]);
        assert(join(seq![last], t) == last);
        assert(join(parts, t) == parts[0]);
    } else {
        lemma_join_push(parts.drop_first(), t, last);
        assert(parts.push(last).drop_first() =~= parts.drop_first().push(last));
        assert(parts.push(last)[0] == parts[0]);
        assert(parts[0] + t + (join(parts.drop_first(), t) + t + last) =~= parts[0] + t + join(
            parts.drop_first(),
            t,
        ) + t + last);
    }
}

proof fn lemma_rsplit_from_join(s: Seq<char>, t: Seq<char>, current: Seq<char>)
    requires
        t.len() > 0,
    ensures
        rsplit_from(s, t, current).len() >= 1,
        join(rsplit_from(s, t, current).reverse(), t) == s + current,
    decreases s.len(),
{
    if matches_at(s, t, s.len() - t.len()) {
        let rest = s.take(s.len() - t.len());
        lemma_rsplit_from_join(rest, t, Seq::empty());
        let inner = rsplit_from(rest, t, Seq::empty());
        let parts = rsplit_from(s, t, current);
        assert(parts.reverse() =~= inner.reverse().push(current));
        lemma_join_push(inner.reverse(), t, current);
        assert(rest + Seq::<char>::empty() =~= rest);
        assert(s =~= rest + t) by {
            assert(s.subrange(s.len() - t.len(), s.len() as int) == t);
        }
        assert(rest + t + current =~= s + current);
    } else if s.len() == 0 {
        assert(rsplit_from(s, t, current).reverse() =~= seq![current]);
        assert(s + current =~= current);
    } else {
        lemma_rsplit_from_join(s.drop_last(), t, seq![s.last()] + current);
        assert(s.drop_last() + (seq![s.last()] + current) =~= s + current);
    }
}

/// Joining the parts that splitting from the right gives, taken back in reading order and
/// with the separator between each two of them, gives back the value.
pub proof fn lemma_rsplit_join(s: Seq<char>, t: Seq<char>)
    requires
        t.len() > 0,
    ensures
        join(rsplit_text(s, t).reverse(), t) == s,
{
    lemma_rsplit_from_join(s, t, Seq::empty());
    assert(s + Seq::<char>::empty() =~= s);
}

/// No part holds the character `x`.
pub open spec fn parts_without(parts: Seq<Seq<char>>, x: char) -> bool {
    forall|k: int, j: int| 0 <= k < parts.len() && 0 <= j < parts[k].len() ==> #[trigger] parts[k][j] != x
}

proof fn lemma_split_from_without(s: Seq<char>, x: char, current: Seq<char>)
    requires
        forall|j: int| 0 <= j < current.len() ==> current[j] != x,
    ensures
        parts_without(split_from(s, seq![x], current), x),
    decreases s.len(),
{
    let t = seq![x];
    if matches_at(s, t, 0) {
        let rest = s.skip(1);
        lemma_split_from_without(rest, x, Seq::empty());
        let parts = split_from(s, t, current);
        assert(parts =~= seq![current] + split_from(rest, t, Seq::empty()));
        assert forall|k: int, j: int| 0 <= k < parts.len() && 0 <= j < parts[k].len() implies #[trigger] parts[k][j]
            != x by {
            if k > 0 {
                assert(parts[k] == split_from(rest, t, Seq::empty())[k - 1]);
            }
        }
    } else if s.len() == 0 {
        let parts = split_from(s, t, current);
        assert(parts =~= seq![current]);
        assert forall|k: int, j: int| 0 <= k < parts.len() && 0 <= j < parts[k].len() implies #[trigger] parts[k][j]
            != x by {
            assert(parts[k] == current);
        }
    } else {
        assert(s[0] != x) by {
            if s[0] == x {
                assert(s.subrange(0, 1) =~= t);
            }
        }
        lemma_split_from_without(s.drop_first(), x, current.push(s[0]));
    }
}

proof fn lemma_rsplit_from_without(s: Seq<char>, x: char, current: Seq<char>)
    requires
        forall|j: int| 0 <= j < current.len() ==> current[j] != x,
    ensures
        parts_without(rsplit_from(s, seq![x], current), x),
    decreases s.len(),
{
    let t = seq![x];
    if matches_at(s, t, s.len() - 1) {
        let rest = s.take(s.len() - 1);
        lemma_rsplit_from_without(rest, x, Seq::empty());
        let parts = rsplit_from(s, t, current);
        assert(parts =~= seq![current] + rsplit_from(rest, t, Seq::empty()));
        assert forall|k: int, j: int| 0 <= k < parts.len() && 0 <= j < parts[k].len() implies #[trigger] parts[k][j]
            != x by {
            if k > 0 {
                assert(parts[k] == rsplit_from(rest, t, Seq::empty())[k - 1]);
            }
        }
    } else if s.len() == 0 {
        let parts = rsplit_from(s, t, current);
        assert(parts =~= seq![current]);
        assert forall|k: int, j: int| 0 <= k < parts.len() && 0 <= j < parts[k].len() implies #[trigger] parts[k][j]
            != x by {
            assert(parts[k] == current);
        }
    } else {
        assert(s.last() != x) by {
            if s.last() == x {
                assert(s.subrange(s.len() - 1, s.len() as int) =~= t);
            }
        }
        let next = seq![s.last()] + current;
        assert forall|j: int| 0 <= j < next.len() implies next[j] != x by {
            if j > 0 {
                assert(next[j] == current[j - 1]);
            }
        }
        lemma_rsplit_from_without(s.drop_last(), x, next);
    }
}

/// Parts without `x` are given back by what they join to with `x` between them.
proof fn lemma_join_unique(p: Seq<Seq<char>>, q: Seq<Seq<char>>, x: char)
    requires
        p.len() >= 1,
        q.len() >= 1,
        parts_without(p, x),
        parts_without(q, x),
        join(p, seq![x]) == join(q, seq![x]),
    ensures
        p == q,
    decreases p.len() + q.len(),
{
    let t = seq![x];
    let jp = join(p, t);
    if p.len() == 1 && q.len() == 1 {
        assert(p =~= q);
    } else if p.len() == 1 {
        assert(jp == q[0] + t + join(q.drop_first(), t));
        assert(jp[q[0].len() as int] == x);
        assert(p[0][q[0].len() as int] != x);
    } else if q.len() == 1 {
        assert(jp == p[0] + t + join(p.drop_first(), t));
        assert(jp[p[0].len() as int] == x);
        assert(q[0][p[0].len() as int] != x);
    } else {
        let a = p[0];
        let b = q[0];
        assert(jp == a + t + join(p.drop_first(), t));
        assert(jp == b + t + join(q.drop_first(), t));
        if a.len() < b.len() {
            assert(jp[a.len() as int] == x);
            assert(b[a.len() as int] != x);
        } else if b.len() < a.len() {
            assert(jp[b.len() as int] == x);
            assert(a[b.len() as int] != x);
        } else {
            assert(a =~= jp.take(a.len() as int));
            assert(b =~= jp.take(b.len() as int));
            assert(join(p.drop_first(), t) =~= jp.skip(a.len() as int + 1));
            assert(join(q.drop_first(), t) =~= jp.skip(b.len() as int + 1));
            let p1 = p.drop_first();
            let q1 = q.drop_first();
            assert forall|k: int, j: int| 0 <= k < p1.len() && 0 <= j < p1[k].len() implies #[trigger] p1[k][j] != x by {
                assert(p1[k] == p[k + 1]);
            }
            assert forall|k: int, j: int| 0 <= k < q1.len() && 0 <= j < q1[k].len() implies #[trigger] q1[k][j] != x by {
                assert(q1[k] == q[k + 1]);
            }
            lemma_join_unique(p1, q1, x);
            assert(p =~= seq![a] + p1);
            assert(q =~= seq![b] + q1);
        }
    }
}

/// No part of splitting at `x` holds `x`.
pub proof fn lemma_split_parts_without(s: Seq<char>, x: char)
    ensures
        parts_without(split_text(s, seq![x]), x),
{
    lemma_split_from_without(s, x, Seq::empty());
}

/// Parts that do not hold `x`, joined with `x` between them, split back into those parts.
pub proof fn lemma_split_of_join(parts: Seq<Seq<char>>, x: char)
    requires
        parts.len() >= 1,
        parts_without(parts, x),
    ensures
        split_text(join(parts, seq![x]), seq![x]) == parts,
{
    let s = join(parts, seq![x]);
    lemma_split_from_join(s, seq![x], Seq::empty());
    lemma_split_join(s, seq![x]);
    lemma_split_from_without(s, x, Seq::empty());
    lemma_join_unique(split_text(s, seq![x]), parts, x);
}

/// Joining parts after others puts the separator between the two joins.
pub proof fn lemma_join_append(p: Seq<Seq<char>>, q: Seq<Seq<char>>, t: Seq<char>)
    requires
        p.len() >= 1,
        q.len() >= 1,
    ensures
        join(p + q, t) == join(p, t) + t + join(q, t),
    decreases q.len(),
{
    if q.len() == 1 {
        assert(p + q =~= p.push(q[0]));
        lemma_join_push(p, t, q[0]);
    } else {
        let q0 = q.drop_last();
        lemma_join_append(p, q0, t);
        assert(p + q =~= (p + q0).push(q.last()));
        lemma_join_push(p + q0, t, q.last());
        lemma_join_push(q0, t, q.last());
        assert(q0.push(q.last()) =~= q);
        assert(join(p, t) + t + join(q0, t) + t + q.last() =~= join(p, t) + t + (join(q0, t) + t + q.last()));
    }
}

/// Splitting from the right at a separator of at most one character gives the parts of
/// splitting from the left, from the last.
pub proof fn lemma_rsplit_is_reversed_split(s: Seq<char>, t: Seq<char>)
    requires
        t.len() <= 1,
    ensures
        rsplit_text(s, t) == split_text(s, t).reverse(),
{
    if t.len() == 0 {
        let e = Seq::<char>::empty();
        let fwd = seq![e] + singles(s) + seq![e];
        let bwd = seq![e] + singles(s).reverse() + seq![e];
        assert(bwd.len() == fwd.reverse().len());
        assert forall|k: int| 0 <= k < bwd.len() implies bwd[k] == fwd.reverse()[k] by {
            if 0 < k < bwd.len() - 1 {
                assert(bwd[k] == singles(s).reverse()[k - 1]);
                assert(fwd.reverse()[k] == fwd[fwd.len() - 1 - k]);
                assert(fwd[fwd.len() - 1 - k] == singles(s)[fwd.len() - 2 - k]);
            }
        }
        assert(bwd =~= fwd.reverse());
    } else {
        let x = t[0];
        assert(t =~= seq![x]);
        let fwd = split_from(s, t, Seq::empty());
        let bwd = rsplit_from(s, t, Seq::empty());
        lemma_split_from_join(s, t, Seq::empty());
        lemma_rsplit_from_join(s, t, Seq::empty());
        lemma_split_from_without(s, x, Seq::empty());
        lemma_rsplit_from_without(s, x, Seq::empty());
        assert(Seq::<char>::empty() + s =~= s);
        assert(s + Seq::<char>::empty() =~= s);
        let rb = bwd.reverse();
        assert forall|k: int, j: int| 0 <= k < rb.len() && 0 <= j < rb[k].len() implies #[trigger] rb[k][j] != x by {
            assert(rb[k] == bwd[bwd.len() - 1 - k]);
        }
        lemma_join_unique(fwd, rb, x);
        assert(bwd =~= rb.reverse());
    }
}

/// The parts of `value` that a separator gives, from the first.
pub open spec fn separator_parts(sep: SeparatorView, value: Seq<char>) -> Seq<Seq<char>> {
    match sep {
        SeparatorView::Text(t) => split_text(value, t),
        SeparatorView::Pattern(p) => regex_split(p, value),
    }
}

/// The parts of `value` that a separator gives, from the last: a text is searched from
/// the right (as `str::rsplit` does); the parts of a regex are taken in reverse.
pub open spec fn separator_parts_backward(sep: SeparatorView, value: Seq<char>) -> Seq<Seq<char>> {
    match sep {
        SeparatorView::Text(t) => rsplit_text(value, t),
        SeparatorView::Pattern(p) => regex_split(p, value).reverse(),
    }
}

/// Counting parts from the last is counting them from the first in reverse, for a regex
/// separator and for a text separator of at most one character.
pub proof fn lemma_part_backward(sep: SeparatorView, value: Seq<char>, i: int)
    requires
        0 <= i,
        sep matches SeparatorView::Text(t) ==> t.len() <= 1,
    ensures
        ({
            let parts = separator_parts(sep, value);
            part_at(separator_parts_backward(sep, value), i) == if i < parts.len() {
                parts[parts.len() - 1 - i]
            } else {
                Seq::empty()
            }
        }),
{
    if let SeparatorView::Text(t) = sep {
        lemma_rsplit_is_reversed_split(value, t);
    }
}

/// The part with index `i`, or an empty text when there are not that many parts.
pub open spec fn part_at(parts: Seq<Seq<char>>, i: int) -> Seq<char> {
    if 0 <= i < parts.len() {
        parts[i]
    } else {
        Seq::empty()
    }
}

/// The part with index `index`, or an empty string when there are not that many.
pub fn nth_part(parts: &Vec<String>, index: usize) -> (s: String)
    ensures
        s@ == part_at(texts(parts@), index as int),
{
    if index < parts.len() {
        string_from_str(parts[index].as_str())
    } else {
        String::new()
    }
}

/// The part with index `index` counted from the last, or an empty string when there are
/// not that many.
pub fn nth_part_backward(parts: &Vec<String>, index: usize) -> (s: String)
    ensures
        s@ == part_at(texts(parts@).reverse(), index as int),
{
    if index < parts.len() {
        string_from_str(parts[parts.len() - 1 - index].as_str())
    } else {
        String::new()
    }
}

impl Separator {
    /// The parts of `value` between occurrences of the separator, in order.
    pub fn split(&self, value: &str) -> (r: Vec<String>)
        ensures
            texts(r@) == separator_parts(self@, value@),
    {
        match self {
            Separator::String(text) => split_string(value, text.as_str()),
            Separator::Regex(regex) => regex.split(value),
        }
    }

    /// The part of `value` with index `index`, or an empty string.
    pub fn part(&self, value: &str, index: usize) -> (s: String)
        ensures
            s@ == part_at(separator_parts(self@, value@), index as int),
    {
        nth_part(&self.split(value), index)
    }

    /// The part of `value` with index `index` counted from the last, or an empty string.
    pub fn part_backward(&self, value: &str, index: usize) -> (s: String)
        ensures
            s@ == part_at(separator_parts_backward(self@, value@), index as int),
    {
        match self {
            Separator::String(text) => nth_part(&rsplit_string(value, text.as_str()), index),
            Separator::Regex(regex) => nth_part_backward(&regex.split(value), index),
        }
    }
}

} // verus!
