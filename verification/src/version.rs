//! Release versions. Whether a text is a version, and which of two versions
//! is the later one, is decided by the `semver` crate.

use vstd::prelude::*;

verus! {

/// Whether `semver::Version::parse` accepts `text`.
pub uninterp spec fn semver_valid(text: Seq<char>) -> bool;

/// How `semver` orders the version written `a` against the one written `b`:
/// `-1` where it is the lesser, `0` where they are equal, `1` where it is the
/// greater. It has a meaning only where both texts are versions.
pub uninterp spec fn semver_order(a: Seq<char>, b: Seq<char>) -> int;

/// `semver::Version::parse`: whether `text` is a version. The contract names
/// the outcome and claims nothing else of it.
#[verifier::external_body]
pub(crate) fn parses(text: &str) -> (r: bool)
    ensures
        r == semver_valid(text@),
{
    semver::Version::parse(text).is_ok()
}

/// `Ord::cmp` of `semver::Version`, on the versions that `a` and `b` parse
/// to. The result is `None` exactly where one of the texts is no version;
/// else the contract names the order, which is one of `-1`, `0` and `1`.
#[verifier::external_body]
pub(crate) fn order(a: &str, b: &str) -> (r: Option<i8>)
    ensures
        r is Some == (semver_valid(a@) && semver_valid(b@)),
        r matches Some(o) ==> o == semver_order(a@, b@) && -1 <= o <= 1,
{
    match (semver::Version::parse(a), semver::Version::parse(b)) {
        (Ok(x), Ok(y)) => Some(match x.cmp(&y) {
            std::cmp::Ordering::Less => -1,
            std::cmp::Ordering::Equal => 0,
            std::cmp::Ordering::Greater => 1,
        }),
        _ => None,
    }
}

/// Whether `text` holds the sign that introduces build metadata.
pub open spec fn has_build(text: Seq<char>) -> bool {
    text.contains('+')
}

/// A release version: `MAJOR.MINOR.PATCH`, with an optional pre-release part
/// and without build metadata.
pub open spec fn is_release_version(text: Seq<char>) -> bool {
    semver_valid(text) && !has_build(text)
}

/// Whether `cs` holds a `+`.
pub fn holds_build(cs: &Vec<char>) -> (r: bool)
    ensures
        r == has_build(cs@),
{
    let mut i: usize = 0;
    while i < cs.len()
        invariant
            i <= cs.len(),
            forall|k: int| 0 <= k < i ==> cs@[k] != '+',
        decreases cs.len() - i,
    {
        if cs[i] == '+' {
            return true;
        }
        i += 1;
    }
    false
}

/// Decides from the verdict of `semver` and the characters of a text whether
/// the text is a release version.
pub fn release_verdict(parsed: bool, cs: &Vec<char>) -> (r: bool)
    ensures
        r == (parsed && !has_build(cs@)),
{
    parsed && !holds_build(cs)
}

/// Whether `text` is a release version.
pub fn valid_version(text: &str) -> (r: bool)
    ensures
        r == is_release_version(text@),
{
    let cs = crate::text::chars_of(text);
    release_verdict(parses(text), &cs)
}

/// Whether the version written `a` is greater than the one written `b`: the
/// order puts `a` behind `b`, and does not put `b` behind `a`. The order is
/// asked both ways, so that no version is greater than itself and no two are
/// greater than each other, whatever the order says. A text that is no
/// version is neither greater nor lesser than anything.
pub open spec fn later(a: Seq<char>, b: Seq<char>) -> bool {
    semver_valid(a) && semver_valid(b) && semver_order(a, b) > 0 && !(semver_order(b, a) > 0)
}

/// Whether the orders found for two texts, one way and the other, say that
/// the first is the greater version.
pub open spec fn says_later(forth: Option<i8>, back: Option<i8>) -> bool {
    (forth matches Some(o) && o > 0) && !(back matches Some(p) && p > 0)
}

/// Decides from the orders found for two texts, one way and the other,
/// whether the first is the greater version.
pub fn is_later(forth: Option<i8>, back: Option<i8>) -> (r: bool)
    ensures
        r == says_later(forth, back),
{
    let ahead = match forth {
        Some(o) => o > 0,
        None => false,
    };
    let behind = match back {
        Some(p) => p > 0,
        None => false,
    };
    ahead && !behind
}

/// Whether the version written `a` is greater than the one written `b`.
pub fn newer(a: &str, b: &str) -> (r: bool)
    ensures
        r == later(a@, b@),
{
    is_later(order(a, b), order(b, a))
}

/// Being greater is a strict order: a version that is greater than another
/// is another version, and is not lesser than it as well.
pub proof fn lemma_later_is_strict(a: Seq<char>, b: Seq<char>)
    requires
        later(a, b),
    ensures
        a != b,
        !later(b, a),
{
}

} // verus!
