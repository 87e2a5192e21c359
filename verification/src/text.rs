//! Two questions about strings, answered character by character.

use vstd::prelude::*;
use vstd::std_specs::iter::IteratorSpec;

verus! {

/// Tells whether two strings hold the same characters.
pub fn same(one: &str, other: &str) -> (yes: bool)
    ensures
        yes == (one@ == other@),
{
    let mut left = one.chars();
    let mut right = other.chars();
    let ghost mut done: Seq<char> = Seq::empty();
    loop
        invariant
            one@ == done + left.remaining(),
            other@ == done + right.remaining(),
        decreases one@.len() - done.len(),
    {
        match (left.next(), right.next()) {
            (Some(a), Some(b)) => {
                if a != b {
                    assert(one@[done.len() as int] != other@[done.len() as int]);
                    return false;
                }
                proof {
                    done = done.push(a);
                }
            },
            (None, None) => {
                return true;
            },
            _ => {
                return false;
            },
        }
    }
}

/// The last character of a string, if it has one.
pub fn last_char(text: &str) -> (last: Option<char>)
    ensures
        last == if text@.len() > 0 {
            Some(text@.last())
        } else {
            None
        },
{
    let mut chars = text.chars();
    let mut last: Option<char> = None;
    let ghost mut done: Seq<char> = Seq::empty();
    loop
        invariant
            text@ == done + chars.remaining(),
            last == if done.len() > 0 {
                Some(done.last())
            } else {
                None
            },
        decreases text@.len() - done.len(),
    {
        match chars.next() {
            Some(c) => {
                proof {
                    done = done.push(c);
                }
                last = Some(c);
            },
            None => {
                return last;
            },
        }
    }
}

} // verus!
