//! Small questions about texts, answered character by character.

use vstd::prelude::*;
use vstd::std_specs::iter::IteratorSpec;

verus! {

broadcast use vstd::string::group_string_axioms;

/// Whether `text` ends with the character `wanted`.
pub open spec fn ends_with(text: Seq<char>, wanted: char) -> bool {
    text.len() > 0 && text.last() == wanted
}

/// Whether two texts hold the same characters.
pub fn same_text(a: &str, b: &str) -> (same: bool)
    ensures
        same == (a@ == b@),
{
    let mut left = a.chars();
    let mut right = b.chars();
    let ghost mut done: Seq<char> = Seq::empty();
    loop
        invariant
            done + left.remaining() == a@,
            done + right.remaining() == b@,
            left.obeys_prophetic_iter_laws(),
            right.obeys_prophetic_iter_laws(),
            left.decrease() is Some,
        decreases left.decrease()->0,
    {
        let ghost left_before = left.remaining();
        let ghost right_before = right.remaining();
        let x = left.next();
        let y = right.next();
        match (x, y) {
            (Some(c), Some(d)) => {
                if c != d {
                    proof {
                        assert(a@[done.len() as int] == left_before[0]);
                        assert(b@[done.len() as int] == right_before[0]);
                    }
                    return false;
                }
                proof {
                    assert(done.push(c) + left.remaining() == a@);
                    assert(done.push(c) + right.remaining() == b@);
                    done = done.push(c);
                }
            },
            (None, None) => {
                proof {
                    assert(done == a@);
                    assert(done == b@);
                }
                return true;
            },
            _ => {
                proof {
                    assert(a@.len() == done.len() + left_before.len());
                    assert(b@.len() == done.len() + right_before.len());
                }
                return false;
            },
        }
    }
}

/// Whether `wanted` occurs in `text`.
pub fn contains_char(text: &str, wanted: char) -> (found: bool)
    ensures
        found == text@.contains(wanted),
{
    let mut rest = text.chars();
    let ghost mut done: Seq<char> = Seq::empty();
    loop
        invariant
            done + rest.remaining() == text@,
            !done.contains(wanted),
            rest.obeys_prophetic_iter_laws(),
            rest.decrease() is Some,
        decreases rest.decrease()->0,
    {
        match rest.next() {
            Some(c) => {
                if c == wanted {
                    proof {
                        assert(text@[done.len() as int] == c);
                    }
                    return true;
                }
                proof {
                    assert(done.push(c) + rest.remaining() == text@);
                    assert forall|i: int| 0 <= i < done.push(c).len() implies done.push(c)[i]
                        != wanted by {
                        if i < done.len() {
                            assert(done.contains(done[i]));
                        }
                    }
                    done = done.push(c);
                }
            },
            None => {
                proof {
                    assert(done == text@);
                }
                return false;
            },
        }
    }
}

/// Whether the last character of `text` is `wanted`.
pub fn ends_with_char(text: &str, wanted: char) -> (found: bool)
    ensures
        found == ends_with(text@, wanted),
{
    let mut rest = text.chars();
    let mut last: Option<char> = None;
    let ghost mut done: Seq<char> = Seq::empty();
    loop
        invariant
            done + rest.remaining() == text@,
            last == (if done.len() > 0 {
                Some(done.last())
            } else {
                None
            }),
            rest.obeys_prophetic_iter_laws(),
            rest.decrease() is Some,
        decreases rest.decrease()->0,
    {
        match rest.next() {
            Some(c) => {
                proof {
                    assert(done.push(c) + rest.remaining() == text@);
                    done = done.push(c);
                }
                last = Some(c);
            },
            None => {
                proof {
                    assert(done == text@);
                }
                return match last {
                    Some(c) => c == wanted,
                    None => false,
                };
            },
        }
    }
}

} // verus!
