//! The policy for the names of authors and modules.

use crate::text::chars_of;
use vstd::prelude::*;

verus! {

/// The longest name that the policy admits.
pub const MAX_NAME: usize = 32;

/// A lower-case letter or a digit.
pub open spec fn is_name_start(c: char) -> bool {
    ('a' <= c && c <= 'z') || ('0' <= c && c <= '9')
}

/// A character that may follow the first: a lower-case letter, a digit, `_`
/// or `-`.
pub open spec fn is_name_char(c: char) -> bool {
    is_name_start(c) || c == '_' || c == '-'
}

/// The identifier policy: 1 to 32 characters; the first a lower-case letter
/// or a digit, the others lower-case letters, digits, `_` or `-`.
pub open spec fn is_valid_name(name: Seq<char>) -> bool {
    &&& 1 <= name.len() <= MAX_NAME
    &&& is_name_start(name[0])
    &&& forall|i: int| 1 <= i < name.len() ==> is_name_char(#[trigger] name[i])
}

fn name_start(c: char) -> (r: bool)
    ensures
        r == is_name_start(c),
{
    ('a' <= c && c <= 'z') || ('0' <= c && c <= '9')
}

fn name_char(c: char) -> (r: bool)
    ensures
        r == is_name_char(c),
{
    name_start(c) || c == '_' || c == '-'
}

/// Whether `name` meets the identifier policy.
pub fn valid_name(name: &str) -> (r: bool)
    ensures
        r == is_valid_name(name@),
{
    let cs = chars_of(name);
    if cs.len() < 1 || cs.len() > MAX_NAME {
        return false;
    }
    if !name_start(cs[0]) {
        return false;
    }
    let mut i: usize = 1;
    while i < cs.len()
        invariant
            1 <= i <= cs.len(),
            cs@ == name@,
            forall|k: int| 1 <= k < i ==> is_name_char(#[trigger] cs@[k]),
        decreases cs.len() - i,
    {
        if !name_char(cs[i]) {
            return false;
        }
        i += 1;
    }
    true
}

} // verus!
