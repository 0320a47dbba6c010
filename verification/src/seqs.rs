//! Facts about sequences that the index and the registries share.

use vstd::prelude::*;

verus! {

/// The views of the elements of a sequence, in order.
pub open spec fn views<T: View>(s: Seq<T>) -> Seq<T::V> {
    Seq::new(s.len(), |i: int| s[i]@)
}

/// Whether no two elements of `s` have the same key.
pub open spec fn distinct_by<A, K>(s: Seq<A>, key: spec_fn(A) -> K) -> bool {
    forall|i: int, j: int| 0 <= i < j < s.len() ==> key(s[i]) != key(s[j])
}

/// Whether some element of `s` has the key `k`.
pub open spec fn has_key<A, K>(s: Seq<A>, key: spec_fn(A) -> K, k: K) -> bool {
    exists|i: int| 0 <= i < s.len() && key(s[i]) == k
}

/// How many elements of `s` satisfy `p`.
pub open spec fn count_of<A>(s: Seq<A>, p: spec_fn(A) -> bool) -> nat
    decreases s.len(),
{
    if s.len() == 0 {
        0
    } else {
        count_of(s.drop_last(), p) + if p(s.last()) {
            1nat
        } else {
            0nat
        }
    }
}

/// The views of a sequence with one more element.
pub proof fn lemma_views_push<T: View>(s: Seq<T>, x: T)
    ensures
        views(s.push(x)) == views(s).push(x@),
{
    assert(views(s.push(x)) =~= views(s).push(x@));
}

/// The first `i + 1` elements are the first `i` and the element at `i`.
pub proof fn lemma_views_take_next<T: View>(s: Seq<T>, i: int)
    requires
        0 <= i < s.len(),
    ensures
        views(s.take(i + 1)) == views(s.take(i)).push(s[i]@),
        s.take(i + 1) == s.take(i).push(s[i]),
{
    assert(s.take(i + 1) =~= s.take(i).push(s[i]));
    assert(views(s.take(i + 1)) =~= views(s.take(i)).push(s[i]@));
}

/// All elements of a sequence are the sequence, and none of them is nothing.
pub proof fn lemma_views_take_all<T: View>(s: Seq<T>)
    ensures
        views(s.take(s.len() as int)) == views(s),
        s.take(s.len() as int) == s,
        views(s.take(0)) == Seq::<T::V>::empty(),
{
    assert(s.take(s.len() as int) =~= s);
    assert(views(s.take(0)) =~= Seq::<T::V>::empty());
}

/// Every element of a filtered sequence is an element of the sequence and
/// satisfies the predicate; an element that satisfies it stays.
pub proof fn lemma_filter_members<A>(s: Seq<A>, p: spec_fn(A) -> bool)
    ensures
        forall|x: A| #[trigger] s.filter(p).contains(x) <==> (s.contains(x) && p(x)),
    decreases s.len(),
{
    reveal(Seq::filter);
    if s.len() > 0 {
        let t = s.drop_last();
        lemma_filter_members(t, p);
        assert forall|x: A| #[trigger] s.filter(p).contains(x) <==> (s.contains(x) && p(x)) by {
            if s.filter(p).contains(x) {
                let i = choose|i: int| 0 <= i < s.filter(p).len() && s.filter(p)[i] == x;
                if p(s.last()) && i == t.filter(p).len() {
                    assert(s[s.len() - 1] == x);
                } else {
                    assert(t.filter(p)[i] == x);
                    assert(t.filter(p).contains(x));
                    let j = choose|j: int| 0 <= j < t.len() && t[j] == x;
                    assert(s[j] == x);
                }
            }
            if s.contains(x) && p(x) {
                let j = choose|j: int| 0 <= j < s.len() && s[j] == x;
                if j == s.len() - 1 {
                    assert(s.filter(p) == t.filter(p).push(x));
                    assert(s.filter(p)[t.filter(p).len() as int] == x);
                } else {
                    assert(t[j] == x);
                    assert(t.contains(x));
                    assert(t.filter(p).contains(x));
                    let i = choose|i: int| 0 <= i < t.filter(p).len() && t.filter(p)[i] == x;
                    assert(s.filter(p)[i] == x);
                }
            }
        }
    }
}

/// Filtering by a predicate that every element satisfies changes nothing.
pub proof fn lemma_filter_keeps_all<A>(s: Seq<A>, p: spec_fn(A) -> bool)
    requires
        forall|i: int| 0 <= i < s.len() ==> p(#[trigger] s[i]),
    ensures
        s.filter(p) == s,
    decreases s.len(),
{
    reveal(Seq::filter);
    if s.len() > 0 {
        let t = s.drop_last();
        assert forall|i: int| 0 <= i < t.len() implies p(#[trigger] t[i]) by {
            assert(t[i] == s[i]);
        }
        lemma_filter_keeps_all(t, p);
        assert(t.push(s.last()) =~= s);
    }
}

/// Filtering keeps keys distinct.
pub proof fn lemma_filter_distinct<A, K>(s: Seq<A>, key: spec_fn(A) -> K, p: spec_fn(A) -> bool)
    requires
        distinct_by(s, key),
    ensures
        distinct_by(s.filter(p), key),
    decreases s.len(),
{
    reveal(Seq::filter);
    if s.len() > 0 {
        let t = s.drop_last();
        assert(distinct_by(t, key)) by {
            assert forall|i: int, j: int| 0 <= i < j < t.len() implies key(t[i]) != key(t[j]) by {
                assert(t[i] == s[i] && t[j] == s[j]);
            }
        }
        lemma_filter_distinct(t, key, p);
        if p(s.last()) {
            let f = t.filter(p);
            lemma_filter_members(t, p);
            assert forall|i: int, j: int| 0 <= i < j < f.push(s.last()).len() implies key(
                f.push(s.last())[i],
            ) != key(f.push(s.last())[j]) by {
                if j == f.len() {
                    assert(f.contains(f[i]));
                    assert(t.contains(f[i]));
                    let m = choose|m: int| 0 <= m < t.len() && t[m] == f[i];
                    assert(s[m] == f[i]);
                    assert(key(s[m]) != key(s[s.len() - 1]));
                }
            }
        }
    }
}

/// A key that the predicate refuses is the key of no element that stays.
pub proof fn lemma_filter_drops_key<A, K>(
    s: Seq<A>,
    key: spec_fn(A) -> K,
    p: spec_fn(A) -> bool,
    k: K,
)
    requires
        forall|x: A| #[trigger] key(x) == k ==> !p(x),
    ensures
        !has_key(s.filter(p), key, k),
{
    lemma_filter_members(s, p);
    if has_key(s.filter(p), key, k) {
        let i = choose|i: int| 0 <= i < s.filter(p).len() && key(s.filter(p)[i]) == k;
        assert(s.filter(p).contains(s.filter(p)[i]));
    }
}

/// A key whose elements the predicate lets through is the key of an element
/// that stays exactly where it was the key of an element.
pub proof fn lemma_filter_keeps_key<A, K>(
    s: Seq<A>,
    key: spec_fn(A) -> K,
    p: spec_fn(A) -> bool,
    k: K,
)
    requires
        forall|x: A| #[trigger] key(x) == k ==> p(x),
    ensures
        has_key(s.filter(p), key, k) <==> has_key(s, key, k),
{
    lemma_filter_members(s, p);
    if has_key(s.filter(p), key, k) {
        let i = choose|i: int| 0 <= i < s.filter(p).len() && key(s.filter(p)[i]) == k;
        let x = s.filter(p)[i];
        assert(s.filter(p).contains(x));
        assert(s.contains(x));
        let j = choose|j: int| 0 <= j < s.len() && s[j] == x;
        assert(key(s[j]) == k);
    }
    if has_key(s, key, k) {
        let j = choose|j: int| 0 <= j < s.len() && key(s[j]) == k;
        let x = s[j];
        assert(s.contains(x));
        assert(s.filter(p).contains(x));
        let i = choose|i: int| 0 <= i < s.filter(p).len() && s.filter(p)[i] == x;
        assert(key(s.filter(p)[i]) == k);
    }
}

/// The keys of a sequence with one more element are its keys and the key
/// of that element.
pub proof fn lemma_push_has_key<A, K>(s: Seq<A>, key: spec_fn(A) -> K, x: A, k: K)
    ensures
        has_key(s.push(x), key, k) <==> (has_key(s, key, k) || key(x) == k),
{
    let t = s.push(x);
    if has_key(t, key, k) {
        let i = choose|i: int| 0 <= i < t.len() && key(t[i]) == k;
        if i < s.len() {
            assert(key(s[i]) == k);
        }
    }
    if has_key(s, key, k) {
        let i = choose|i: int| 0 <= i < s.len() && key(s[i]) == k;
        assert(key(t[i]) == k);
    }
    if key(x) == k {
        assert(key(t[s.len() as int]) == k);
    }
}

/// Pushing an element with a new key keeps keys distinct.
pub proof fn lemma_push_distinct<A, K>(s: Seq<A>, key: spec_fn(A) -> K, x: A)
    requires
        distinct_by(s, key),
        !has_key(s, key, key(x)),
    ensures
        distinct_by(s.push(x), key),
{
    assert forall|i: int, j: int| 0 <= i < j < s.push(x).len() implies key(s.push(x)[i]) != key(
        s.push(x)[j],
    ) by {
        if j == s.len() {
            assert(key(s[i]) != key(x));
        }
    }
}

} // verus!
