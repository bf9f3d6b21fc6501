//! Finding the first item of a sequence of which something holds.

use vstd::prelude::*;

verus! {

/// `i` is the first place of `s` at which `p` holds.
pub open spec fn is_first<T>(s: Seq<T>, p: spec_fn(T) -> bool, i: int) -> bool {
    &&& 0 <= i < s.len()
    &&& p(s[i])
    &&& forall|j: int| 0 <= j < i ==> !p(#[trigger] s[j])
}

/// The first place of `s` at which `p` holds, if there is one.
pub open spec fn first_where<T>(s: Seq<T>, p: spec_fn(T) -> bool) -> Option<int> {
    if exists|i: int| is_first(s, p, i) {
        Some(choose|i: int| is_first(s, p, i))
    } else {
        None
    }
}

/// The first place at which a predicate holds is the only one that is first.
pub proof fn lemma_first_found<T>(s: Seq<T>, p: spec_fn(T) -> bool, i: int)
    requires
        is_first(s, p, i),
    ensures
        first_where(s, p) == Some(i),
{
    let c = choose|c: int| is_first(s, p, c);
    if c < i {
        assert(!p(s[c]));
    } else if i < c {
        assert(!p(s[i]));
    }
}

/// Where a predicate holds nowhere, nothing is found.
pub proof fn lemma_first_missing<T>(s: Seq<T>, p: spec_fn(T) -> bool)
    requires
        forall|j: int| 0 <= j < s.len() ==> !p(#[trigger] s[j]),
    ensures
        first_where(s, p) is None,
{
}

/// What is found is first.
pub proof fn lemma_first_is_first<T>(s: Seq<T>, p: spec_fn(T) -> bool)
    ensures
        first_where(s, p) matches Some(i) ==> is_first(s, p, i),
        first_where(s, p) is None ==> forall|j: int| 0 <= j < s.len() ==> !p(#[trigger] s[j]),
{
    if first_where(s, p) is None {
        assert forall|j: int| 0 <= j < s.len() implies !p(#[trigger] s[j]) by {
            if p(s[j]) {
                lemma_some_is_first(s, p, j);
            }
        }
    }
}

/// Where a predicate holds somewhere, it holds somewhere first.
proof fn lemma_some_is_first<T>(s: Seq<T>, p: spec_fn(T) -> bool, j: int)
    requires
        0 <= j < s.len(),
        p(s[j]),
    ensures
        exists|i: int| is_first(s, p, i),
    decreases j,
{
    if exists|k: int| 0 <= k < j && p(s[k]) {
        let k = choose|k: int| 0 <= k < j && p(s[k]);
        lemma_some_is_first(s, p, k);
    } else {
        assert(is_first(s, p, j));
    }
}

/// Where a predicate holds somewhere, something is found.
pub proof fn lemma_first_exists<T>(s: Seq<T>, p: spec_fn(T) -> bool, j: int)
    requires
        0 <= j < s.len(),
        p(s[j]),
    ensures
        first_where(s, p) is Some,
{
    lemma_some_is_first(s, p, j);
}

/// What is found in a sequence is found at the same place once an item is
/// added at the end.
pub proof fn lemma_first_push<T>(s: Seq<T>, p: spec_fn(T) -> bool, x: T)
    ensures
        first_where(s, p) matches Some(i) ==> first_where(s.push(x), p) == Some(i),
        first_where(s, p) is None && p(x) ==> first_where(s.push(x), p) == Some(s.len() as int),
        first_where(s, p) is None && !p(x) ==> first_where(s.push(x), p) is None,
{
    lemma_first_is_first(s, p);
    match first_where(s, p) {
        Some(i) => {
            assert(is_first(s.push(x), p, i)) by {
                assert(s.push(x)[i] == s[i]);
                assert forall|j: int| 0 <= j < i implies !p(#[trigger] s.push(x)[j]) by {
                    assert(s.push(x)[j] == s[j]);
                }
            }
            lemma_first_found(s.push(x), p, i);
        },
        None => {
            if p(x) {
                assert(is_first(s.push(x), p, s.len() as int)) by {
                    assert(s.push(x)[s.len() as int] == x);
                    assert forall|j: int| 0 <= j < s.len() implies !p(#[trigger] s.push(x)[j]) by {
                        assert(s.push(x)[j] == s[j]);
                    }
                }
                lemma_first_found(s.push(x), p, s.len() as int);
            } else {
                assert forall|j: int| 0 <= j < s.push(x).len() implies !p(
                    #[trigger] s.push(x)[j],
                ) by {
                    if j < s.len() {
                        assert(s.push(x)[j] == s[j]);
                    }
                }
                lemma_first_missing(s.push(x), p);
            }
        },
    }
}

/// Replacing an item by one of which the predicate says the same changes
/// nothing in what is found.
pub proof fn lemma_first_update<T>(s: Seq<T>, p: spec_fn(T) -> bool, k: int, x: T)
    requires
        0 <= k < s.len(),
        p(x) == p(s[k]),
    ensures
        first_where(s.update(k, x), p) == first_where(s, p),
{
    lemma_first_is_first(s, p);
    let t = s.update(k, x);
    assert forall|j: int| 0 <= j < s.len() implies p(#[trigger] t[j]) == p(s[j]) by {}
    match first_where(s, p) {
        Some(i) => {
            assert(is_first(t, p, i)) by {
                assert(p(t[i]) == p(s[i]));
                assert forall|j: int| 0 <= j < i implies !p(#[trigger] t[j]) by {
                    assert(p(t[j]) == p(s[j]));
                }
            }
            lemma_first_found(t, p, i);
        },
        None => {
            assert forall|j: int| 0 <= j < t.len() implies !p(#[trigger] t[j]) by {
                assert(p(t[j]) == p(s[j]));
            }
            lemma_first_missing(t, p);
        },
    }
}

} // verus!
