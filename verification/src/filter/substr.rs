use vstd::prelude::*;
use crate::eval::BaseResult;
use crate::text::{chars_of, push_chars};

verus! {

/// The characters of `s` from index `start` on, at most `length` of them.
pub open spec fn substring_forward(s: Seq<char>, start: nat, length: Option<nat>) -> Seq<char> {
    let t = if start < s.len() {
        s.skip(start as int)
    } else {
        Seq::<char>::empty()
    };
    match length {
        Some(l) => if l < t.len() {
            t.take(l as int)
        } else {
            t
        },
        None => t,
    }
}

/// The same counted from the end: drop `start` characters from the end, then keep at
/// most the last `length` of what is left.
pub open spec fn substring_backward(s: Seq<char>, start: nat, length: Option<nat>) -> Seq<char> {
    let t = if start <= s.len() {
        s.take(s.len() - start)
    } else {
        Seq::<char>::empty()
    };
    match length {
        Some(l) => if l < t.len() {
            t.skip(t.len() - l)
        } else {
            t
        },
        None => t,
    }
}

/// Counting from the end selects, in reading order, what counting from the start selects
/// in the reversed value.
pub proof fn lemma_backward_is_reversed_forward(s: Seq<char>, start: nat, length: Option<nat>)
    ensures
        substring_backward(s, start, length) == substring_forward(s.reverse(), start, length).reverse(),
{
    let n = s.len();
    let kept = if start <= n {
        s.take(n - start)
    } else {
        Seq::empty()
    };
    let rest = if start < n {
        s.reverse().skip(start as int)
    } else {
        Seq::empty()
    };
    assert(rest.reverse() =~= kept);
    match length {
        Some(l) => {
            if l < rest.len() {
                assert(rest.take(l as int).reverse() =~= kept.skip(kept.len() - l));
            } else if l == rest.len() {
                assert(kept.skip(kept.len() - l) =~= kept);
            }
        },
        None => {},
    }
}

/// The substring of the value from character index `start`, of at most `length` characters.
pub fn get_forward(value: String, start: usize, length: Option<usize>) -> (r: BaseResult<String>)
    ensures
        r matches Ok(s) && s@ == substring_forward(
            value@,
            start as nat,
            match length {
                Some(l) => Some(l as nat),
                None => None,
            },
        ),
{
    let chars = chars_of(value.as_str());
    let n = chars.len();
    let from = if start < n {
        start
    } else {
        n
    };
    let to = match length {
        Some(l) => if l < n - from {
            from + l
        } else {
            n
        },
        None => n,
    };
    let part = vstd::slice::slice_subrange(chars.as_slice(), from, to);
    let mut s = String::new();
    push_chars(&mut s, part);
    proof {
        let ghost lv = match length {
            Some(l) => Some(l as nat),
            None => None,
        };
        assert(s@ =~= substring_forward(value@, start as nat, lv));
    }
    Ok(s)
}

/// The substring counted from the end of the value: `start` characters are dropped from
/// the end, then at most `length` characters are kept from what remains, the last ones.
pub fn get_backward(value: String, start: usize, length: Option<usize>) -> (r: BaseResult<String>)
    ensures
        r matches Ok(s) && s@ == substring_backward(
            value@,
            start as nat,
            match length {
                Some(l) => Some(l as nat),
                None => None,
            },
        ),
{
    let chars = chars_of(value.as_str());
    let n = chars.len();
    let to = if start <= n {
        n - start
    } else {
        0
    };
    let from = match length {
        Some(l) => if l < to {
            to - l
        } else {
            0
        },
        None => 0,
    };
    let part = vstd::slice::slice_subrange(chars.as_slice(), from, to);
    let mut s = String::new();
    push_chars(&mut s, part);
    proof {
        let ghost lv = match length {
            Some(l) => Some(l as nat),
            None => None,
        };
        assert(s@ =~= substring_backward(value@, start as nat, lv));
    }
    Ok(s)
}

} // verus!
