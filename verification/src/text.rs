//! Text as sequences of characters: the helpers that the parsers and the
//! registry share.

use vstd::prelude::*;

verus! {

/// `String::push` appends one character to the end of the string.
pub assume_specification[ String::push ](s: &mut String, ch: char)
    ensures
        final(s)@ == old(s)@.push(ch),
;

/// The text that the `Debug` formatting of `str` writes for `text`: the
/// text between double quotes, with the characters that need it escaped.
pub uninterp spec fn quoted(text: Seq<char>) -> Seq<char>;

/// `format!` with `{:?}` on a `str`. The contract names the outcome and
/// claims nothing else of it.
#[verifier::external_body]
pub(crate) fn quote(text: &str) -> (r: String)
    ensures
        r@ == quoted(text@),
{
    format!("{:?}", text)
}

/// The characters of `s`, in order.
pub fn chars_of(s: &str) -> (r: Vec<char>)
    ensures
        r@ == s@,
{
    let mut out: Vec<char> = Vec::new();
    for c in it: s.chars()
        invariant
            out@ == it.seq().take(it.index() as int),
            it.seq() == s@,
    {
        out.push(c);
        assert(it.seq().take(it.index() + 1) == it.seq().take(it.index() as int).push(c));
    }
    assert(s@.take(s@.len() as int) == s@);
    out
}

/// The string made of the characters `cs[lo..hi]`.
pub fn string_of(cs: &Vec<char>, lo: usize, hi: usize) -> (r: String)
    requires
        lo <= hi <= cs.len(),
    ensures
        r@ == cs@.subrange(lo as int, hi as int),
{
    let mut out = String::new();
    let mut i: usize = lo;
    while i < hi
        invariant
            lo <= i <= hi <= cs.len(),
            out@ == cs@.subrange(lo as int, i as int),
        decreases hi - i,
    {
        out.push(cs[i]);
        i += 1;
        assert(cs@.subrange(lo as int, i as int) == cs@.subrange(lo as int, i - 1).push(
            cs@[i - 1],
        ));
    }
    out
}

/// Whether a string and a string slice hold the same text.
pub fn same_text(a: &String, b: &str) -> (r: bool)
    ensures
        r == (a@ == b@),
{
    let owned = b.to_owned();
    *a == owned
}

/// Whether `needle` occurs in `hay` at position `at`.
pub open spec fn occurs_at(hay: Seq<char>, needle: Seq<char>, at: int) -> bool {
    0 <= at && at + needle.len() <= hay.len() && hay.subrange(at, at + needle.len()) == needle
}

/// Whether `needle` is a contiguous part of `hay`. The empty text is a part
/// of every text.
pub open spec fn is_part(hay: Seq<char>, needle: Seq<char>) -> bool {
    exists|at: int| occurs_at(hay, needle, at)
}

fn matches_at(hay: &Vec<char>, needle: &Vec<char>, at: usize) -> (r: bool)
    requires
        at + needle.len() <= hay.len(),
    ensures
        r == occurs_at(hay@, needle@, at as int),
{
    let mut j: usize = 0;
    while j < needle.len()
        invariant
            at + needle.len() <= hay.len(),
            j <= needle.len(),
            hay@.subrange(at as int, at + j) == needle@.take(j as int),
        decreases needle.len() - j,
    {
        if hay[at + j] != needle[j] {
            assert(hay@.subrange(at as int, at + needle.len())[j as int] != needle@[j as int]);
            return false;
        }
        j += 1;
        assert(hay@.subrange(at as int, at + j) == hay@.subrange(at as int, at + j - 1).push(
            hay@[at + j - 1],
        ));
        assert(needle@.take(j as int) == needle@.take(j - 1).push(needle@[j - 1]));
    }
    assert(needle@.take(needle.len() as int) == needle@);
    true
}

/// Substring test on character vectors.
pub fn contains_chars(hay: &Vec<char>, needle: &Vec<char>) -> (r: bool)
    ensures
        r == is_part(hay@, needle@),
{
    if needle.len() > hay.len() {
        return false;
    }
    if needle.len() == 0 {
        assert(occurs_at(hay@, needle@, 0)) by {
            assert(hay@.subrange(0, 0) == needle@);
        }
        return true;
    }
    let last: usize = hay.len() - needle.len();
    let mut at: usize = 0;
    while at <= last
        invariant
            last == hay.len() - needle.len(),
            last < hay.len(),
            at <= last + 1,
            forall|k: int| 0 <= k < at ==> !occurs_at(hay@, needle@, k),
        decreases last + 1 - at,
    {
        if matches_at(hay, needle, at) {
            return true;
        }
        at += 1;
    }
    false
}

/// Substring test on strings.
pub fn contains(hay: &str, needle: &str) -> (r: bool)
    ensures
        r == is_part(hay@, needle@),
{
    let h = chars_of(hay);
    let n = chars_of(needle);
    contains_chars(&h, &n)
}

/// The order of a dictionary on texts, character by character, by code point:
/// `a` comes before `b` when, at the first place where they differ, `a` has
/// the smaller character, or when `a` ends there and `b` does not.
pub open spec fn comes_before(a: Seq<char>, b: Seq<char>) -> bool {
    exists|k: int| first_difference(a, b, k)
}

/// `a` and `b` agree on their first `k` characters and `a` is smaller at `k`.
pub open spec fn first_difference(a: Seq<char>, b: Seq<char>, k: int) -> bool {
    &&& 0 <= k <= a.len()
    &&& k < b.len()
    &&& a.take(k) == b.take(k)
    &&& (k == a.len() || a[k] < b[k])
}

/// Dictionary order on character vectors.
pub fn less_chars(a: &Vec<char>, b: &Vec<char>) -> (r: bool)
    ensures
        r == comes_before(a@, b@),
{
    let mut i: usize = 0;
    while i < a.len() && i < b.len()
        invariant
            i <= a.len(),
            i <= b.len(),
            a@.take(i as int) == b@.take(i as int),
        decreases a.len() - i,
    {
        if a[i] != b[i] {
            let x: char = a[i];
            let y: char = b[i];
            proof {
                if x < y {
                    assert(first_difference(a@, b@, i as int));
                } else {
                    assert forall|k: int| !first_difference(a@, b@, k) by {
                        if first_difference(a@, b@, k) {
                            if k > i {
                                assert(a@.take(k)[i as int] == b@.take(k)[i as int]);
                            } else if k < i {
                                assert(a@.take(i as int)[k] == b@.take(i as int)[k]);
                            }
                        }
                    }
                }
            }
            return x < y;
        }
        i += 1;
        assert(a@.take(i as int) == a@.take(i - 1).push(a@[i - 1]));
        assert(b@.take(i as int) == b@.take(i - 1).push(b@[i - 1]));
    }
    proof {
        if i < b.len() {
            assert(first_difference(a@, b@, i as int));
        } else {
            assert forall|k: int| !first_difference(a@, b@, k) by {
                if first_difference(a@, b@, k) {
                    assert(k < i);
                    assert(a@.take(i as int)[k] == b@.take(i as int)[k]);
                }
            }
        }
    }
    i < b.len()
}

/// Dictionary order on strings.
pub fn less(a: &str, b: &str) -> (r: bool)
    ensures
        r == comes_before(a@, b@),
{
    let x = chars_of(a);
    let y = chars_of(b);
    less_chars(&x, &y)
}

} // verus!
