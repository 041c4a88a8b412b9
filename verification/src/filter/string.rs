use vstd::prelude::*;
use crate::eval::BaseResult;
use crate::text::{chars_of, push_char, push_chars};

verus! {

/// `t` occurs in `s` at index `i`.
pub open spec fn matches_at(s: Seq<char>, t: Seq<char>, i: int) -> bool {
    0 <= i && i + t.len() <= s.len() && s.subrange(i, i + t.len()) == t
}

/// `s` with its first occurrence of `t` replaced by `r` (what `str::replacen(t, r, 1)` gives;
/// an empty `t` occurs at the start).
pub open spec fn replace_first_text(s: Seq<char>, t: Seq<char>, r: Seq<char>) -> Seq<char>
    decreases s.len(),
{
    if matches_at(s, t, 0) {
        r + s.skip(t.len() as int)
    } else if s.len() == 0 {
        s
    } else {
        seq![s[0]] + replace_first_text(s.drop_first(), t, r)
    }
}

/// `s` with every occurrence of `t`, taken from left to right without overlaps, replaced
/// by `r` (what `str::replace` gives; an empty `t` occurs before every character and at
/// the end).
pub open spec fn replace_all_text(s: Seq<char>, t: Seq<char>, r: Seq<char>) -> Seq<char>
    decreases s.len(),
{
    if t.len() == 0 {
        if s.len() == 0 {
            r
        } else {
            r + seq![s[0]] + replace_all_text(s.drop_first(), t, r)
        }
    } else if matches_at(s, t, 0) {
        r + replace_all_text(s.skip(t.len() as int), t, r)
    } else if s.len() == 0 {
        s
    } else {
        seq![s[0]] + replace_all_text(s.drop_first(), t, r)
    }
}

/// Replacing every occurrence of a text by itself leaves the value unchanged.
pub proof fn lemma_replace_all_by_itself(s: Seq<char>, t: Seq<char>)
    ensures
        replace_all_text(s, t, t) == s,
    decreases s.len(),
{
    if t.len() == 0 {
        if s.len() > 0 {
            lemma_replace_all_by_itself(s.drop_first(), t);
            assert(t + seq![s[0]] + s.drop_first() =~= s);
        }
    } else if matches_at(s, t, 0) {
        lemma_replace_all_by_itself(s.skip(t.len() as int), t);
        assert(t + s.skip(t.len() as int) =~= s) by {
            assert(s.subrange(0, t.len() as int) == t);
        }
    } else if s.len() > 0 {
        lemma_replace_all_by_itself(s.drop_first(), t);
        assert(seq![s[0]] + s.drop_first() =~= s);
    }
}

/// Replacing the first occurrence of a text by itself leaves the value unchanged.
pub proof fn lemma_replace_first_by_itself(s: Seq<char>, t: Seq<char>)
    ensures
        replace_first_text(s, t, t) == s,
    decreases s.len(),
{
    if matches_at(s, t, 0) {
        assert(t + s.skip(t.len() as int) =~= s) by {
            assert(s.subrange(0, t.len() as int) == t);
        }
    } else if s.len() > 0 {
        lemma_replace_first_by_itself(s.drop_first(), t);
        assert(seq![s[0]] + s.drop_first() =~= s);
    }
}

/// Replacing the first occurrence replaces the occurrence at the first index where the
/// target occurs, wherever that is: what comes before it and after it stays as it is.
pub proof fn lemma_replace_first_at(s: Seq<char>, t: Seq<char>, r: Seq<char>, i: int)
    requires
        matches_at(s, t, i),
        forall|j: int| 0 <= j < i ==> !#[trigger] matches_at(s, t, j),
    ensures
        replace_first_text(s, t, r) == s.take(i) + r + s.skip(i + t.len()),
    decreases i,
{
    if i == 0 {
        assert(s.take(0) + r =~= r);
    } else {
        assert(!matches_at(s, t, 0));
        let rest = s.drop_first();
        assert(matches_at(rest, t, i - 1)) by {
            assert(rest.subrange(i - 1, i - 1 + t.len()) =~= s.subrange(i, i + t.len()));
        }
        assert forall|j: int| 0 <= j < i - 1 implies !#[trigger] matches_at(rest, t, j) by {
            if matches_at(rest, t, j) {
                assert(s.subrange(j + 1, j + 1 + t.len()) =~= rest.subrange(j, j + t.len()));
                assert(matches_at(s, t, j + 1));
            }
        }
        lemma_replace_first_at(rest, t, r, i - 1);
        assert(seq![s[0]] + (rest.take(i - 1) + r + rest.skip(i - 1 + t.len())) =~= s.take(i) + r + s.skip(
            i + t.len(),
        ));
    }
}

/// A value in which the target does not occur is left unchanged by replacing it.
pub proof fn lemma_replace_absent(s: Seq<char>, t: Seq<char>, r: Seq<char>)
    requires
        forall|i: int| !#[trigger] matches_at(s, t, i),
    ensures
        replace_first_text(s, t, r) == s,
        replace_all_text(s, t, r) == s,
    decreases s.len(),
{
    assert(!matches_at(s, t, 0));
    if t.len() == 0 {
        assert(matches_at(s, t, 0)) by {
            assert(s.subrange(0, 0) =~= t);
        }
    } else if s.len() > 0 {
        let rest = s.drop_first();
        assert forall|i: int| !#[trigger] matches_at(rest, t, i) by {
            if matches_at(rest, t, i) {
                assert(s.subrange(i + 1, i + 1 + t.len()) =~= rest.subrange(i, i + t.len()));
                assert(matches_at(s, t, i + 1));
            }
        }
        lemma_replace_absent(rest, t, r);
        assert(seq![s[0]] + rest =~= s);
    }
}

/// Whether `t` occurs in `s` at index `i`.
pub fn matches_at_exec(s: &Vec<char>, t: &Vec<char>, i: usize) -> (b: bool)
    requires
        i <= s@.len(),
    ensures
        b == matches_at(s@, t@, i as int),
{
    if t.len() > s.len() - i {
        return false;
    }
    let mut k: usize = 0;
    while k < t.len()
        invariant
            k <= t@.len(),
            i + t@.len() <= s@.len(),
            s@.len() == s.len(),
            forall|j: int| 0 <= j < k ==> s@[i + j] == t@[j],
        decreases t.len() - k,
    {
        if s[i + k] != t[k] {
            assert(s@.subrange(i as int, i + t@.len())[k as int] != t@[k as int]);
            return false;
        }
        k = k + 1;
    }
    assert(s@.subrange(i as int, i + t@.len()) =~= t@);
    true
}

/// The value with the first occurrence of `target` replaced by `replacement`.
pub fn replace_first(value: String, target: &str, replacement: &str) -> (r: BaseResult<String>)
    ensures
        r matches Ok(s) && s@ == replace_first_text(value@, target@, replacement@),
        forall|i: int|
            #![trigger matches_at(value@, target@, i)]
            matches_at(value@, target@, i) && (forall|j: int| 0 <= j < i ==> !matches_at(value@, target@, j))
                ==> (r matches Ok(s) && s@ == value@.take(i) + replacement@ + value@.skip(i + target@.len())),
{
    proof {
        assert forall|i: int|
            #![trigger matches_at(value@, target@, i)]
            matches_at(value@, target@, i) && (forall|j: int| 0 <= j < i ==> !matches_at(value@, target@, j))
                implies replace_first_text(value@, target@, replacement@) == value@.take(i) + replacement@
                + value@.skip(i + target@.len()) by {
            lemma_replace_first_at(value@, target@, replacement@, i);
        }
    }
    let s = chars_of(value.as_str());
    let t = chars_of(target);
    let ghost whole = replace_first_text(s@, t@, replacement@);
    let mut out = String::new();
    let mut i: usize = 0;
    assert(s@.skip(0) =~= s@);
    while i < s.len()
        invariant
            i <= s@.len(),
            out@ + replace_first_text(s@.skip(i as int), t@, replacement@) == whole,
            whole == replace_first_text(value@, target@, replacement@),
            s@ == value@,
            t@ == target@,
            forall|k: int|
                #![trigger matches_at(value@, target@, k)]
                matches_at(value@, target@, k) && (forall|j: int| 0 <= j < k ==> !matches_at(value@, target@, j))
                    ==> whole == value@.take(k) + replacement@ + value@.skip(k + target@.len()),
        decreases s.len() - i,
    {
        if matches_at_exec(&s, &t, i) {
            proof {
                assert(matches_at(s@.skip(i as int), t@, 0)) by {
                    assert(s@.skip(i as int).subrange(0, t@.len() as int) =~= s@.subrange(
                        i as int,
                        i + t@.len(),
                    ));
                }
            }
            let ghost before = out@;
            out.append(replacement);
            let rest = vstd::slice::slice_subrange(s.as_slice(), i + t.len(), s.len());
            push_chars(&mut out, rest);
            proof {
                assert(s@.skip(i as int).skip(t@.len() as int) =~= rest@);
                assert(replace_first_text(s@.skip(i as int), t@, replacement@) == replacement@
                    + s@.skip(i as int).skip(t@.len() as int));
                assert(out@ =~= before + replace_first_text(s@.skip(i as int), t@, replacement@));
            }
            return Ok(out);
        }
        proof {
            assert(!matches_at(s@.skip(i as int), t@, 0)) by {
                if i + t@.len() <= s@.len() {
                    assert(s@.skip(i as int).subrange(0, t@.len() as int) =~= s@.subrange(
                        i as int,
                        i + t@.len(),
                    ));
                }
            }
            assert(s@.skip(i as int).drop_first() =~= s@.skip(i + 1));
            assert(s@.skip(i as int)[0] == s@[i as int]);
        }
        push_char(&mut out, s[i]);
        i = i + 1;
        assert(out@ + replace_first_text(s@.skip(i as int), t@, replacement@) =~= whole);
    }
    proof {
        let rest = s@.skip(i as int);
        assert(rest =~= Seq::<char>::empty());
        if t@.len() == 0 {
            assert(rest.subrange(0, 0) =~= t@);
            assert(matches_at(rest, t@, 0));
            assert(rest.skip(0) =~= rest);
        } else {
            assert(!matches_at(rest, t@, 0));
        }
    }
    if t.len() == 0 {
        out.append(replacement);
    }
    assert(out@ =~= whole);
    Ok(out)
}

/// The value with every occurrence of `target` replaced by `replacement`.
pub fn replace_all(value: String, target: &str, replacement: &str) -> (r: BaseResult<String>)
    ensures
        r matches Ok(s) && s@ == replace_all_text(value@, target@, replacement@),
{
    let s = chars_of(value.as_str());
    let t = chars_of(target);
    let ghost whole = replace_all_text(s@, t@, replacement@);
    let mut out = String::new();
    let mut i: usize = 0;
    assert(s@.skip(0) =~= s@);
    while i < s.len()
        invariant
            i <= s@.len(),
            out@ + replace_all_text(s@.skip(i as int), t@, replacement@) == whole,
        decreases s.len() - i,
    {
        let ghost rest = s@.skip(i as int);
        if t.len() == 0 {
            out.append(replacement);
            push_char(&mut out, s[i]);
            proof {
                assert(rest.drop_first() =~= s@.skip(i + 1));
                assert(rest[0] == s@[i as int]);
            }
            i = i + 1;
            assert(out@ + replace_all_text(s@.skip(i as int), t@, replacement@) =~= whole);
        } else if matches_at_exec(&s, &t, i) {
            proof {
                assert(matches_at(rest, t@, 0)) by {
                    assert(rest.subrange(0, t@.len() as int) =~= s@.subrange(i as int, i + t@.len()));
                }
                assert(rest.skip(t@.len() as int) =~= s@.skip(i + t@.len()));
            }
            out.append(replacement);
            i = i + t.len();
            assert(out@ + replace_all_text(s@.skip(i as int), t@, replacement@) =~= whole);
        } else {
            proof {
                assert(!matches_at(rest, t@, 0)) by {
                    if i + t@.len() <= s@.len() {
                        assert(rest.subrange(0, t@.len() as int) =~= s@.subrange(
                            i as int,
                            i + t@.len(),
                        ));
                    }
                }
                assert(rest.drop_first() =~= s@.skip(i + 1));
                assert(rest[0] == s@[i as int]);
            }
            push_char(&mut out, s[i]);
            i = i + 1;
            assert(out@ + replace_all_text(s@.skip(i as int), t@, replacement@) =~= whole);
        }
    }
    proof {
        let rest = s@.skip(i as int);
        assert(rest =~= Seq::<char>::empty());
        if t@.len() > 0 {
            assert(!matches_at(rest, t@, 0));
        }
        assert(replace_all_text(rest, t@, replacement@) == if t@.len() == 0 { replacement@ } else { rest });
    }
    if t.len() == 0 {
        out.append(replacement);
    }
    assert(out@ =~= whole);
    Ok(out)
}

/// The replacement when the value is empty, the value otherwise.
pub fn replace_empty(value: String, replacement: &str) -> (r: BaseResult<String>)
    ensures
        r matches Ok(s) && s@ == if value@.len() == 0 {
            replacement@
        } else {
            value@
        },
{
    if value.as_str().unicode_len() == 0 {
        Ok(crate::text::string_from_str(replacement))
    } else {
        Ok(value)
    }
}

} // verus!
