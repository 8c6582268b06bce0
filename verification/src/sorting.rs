//! Stable sorting by insertion, as a mathematical function on sequences.
//!
//! The order is given by a relation `stays(a, b)`: "`a` may stand before `b`".
//! A new element goes behind the longest run of leading elements that may
//! stand before it, so elements that compare alike keep their order.

use vstd::prelude::*;

verus! {

/// The length of the longest prefix of `s` whose elements may all stand before `x`.
pub open spec fn run_before<T>(s: Seq<T>, x: T, stays: spec_fn(T, T) -> bool) -> int
    decreases s.len(),
{
    if s.len() == 0 {
        0
    } else if stays(s[0], x) {
        1 + run_before(s.drop_first(), x, stays)
    } else {
        0
    }
}

/// `s` with `x` put behind the leading elements that may stand before it.
pub open spec fn insert_sorted<T>(s: Seq<T>, x: T, stays: spec_fn(T, T) -> bool) -> Seq<T> {
    s.insert(run_before(s, x, stays), x)
}

/// The elements of `s`, inserted one by one from the first to the last.
pub open spec fn sort_by<T>(s: Seq<T>, stays: spec_fn(T, T) -> bool) -> Seq<T>
    decreases s.len(),
{
    if s.len() == 0 {
        Seq::empty()
    } else {
        insert_sorted(sort_by(s.drop_last(), stays), s.last(), stays)
    }
}

/// Every element of `s` may stand before every later one.
pub open spec fn ordered<T>(s: Seq<T>, stays: spec_fn(T, T) -> bool) -> bool {
    forall|i: int, j: int| 0 <= i < j < s.len() ==> stays(#[trigger] s[i], #[trigger] s[j])
}

/// Of any two elements one may stand before the other.
pub open spec fn connected<T>(stays: spec_fn(T, T) -> bool) -> bool {
    forall|a: T, b: T| #[trigger] stays(a, b) || #[trigger] stays(b, a)
}

/// `stays` is transitive.
pub open spec fn transitive<T>(stays: spec_fn(T, T) -> bool) -> bool {
    forall|a: T, b: T, c: T| #[trigger] stays(a, b) && #[trigger] stays(b, c) ==> stays(a, c)
}

/// Where `run_before` ends: a position of `s` before which all elements may
/// stand before `x`, and at which the element may not.
pub proof fn lemma_run_before<T>(s: Seq<T>, x: T, stays: spec_fn(T, T) -> bool)
    ensures
        0 <= run_before(s, x, stays) <= s.len(),
        forall|i: int| 0 <= i < run_before(s, x, stays) ==> stays(#[trigger] s[i], x),
        run_before(s, x, stays) < s.len() ==> !stays(s[run_before(s, x, stays)], x),
    decreases s.len(),
{
    if s.len() > 0 && stays(s[0], x) {
        let rest = s.drop_first();
        lemma_run_before(rest, x, stays);
        let n = run_before(rest, x, stays);
        assert forall|i: int| 0 <= i < n + 1 implies stays(#[trigger] s[i], x) by {
            if i > 0 {
                assert(s[i] == rest[i - 1]);
            }
        }
        if n + 1 < s.len() {
            assert(s[n + 1] == rest[n]);
        }
    }
}

/// A position with the two properties of `lemma_run_before` is where `run_before` ends.
pub proof fn lemma_run_before_is<T>(s: Seq<T>, x: T, stays: spec_fn(T, T) -> bool, at: int)
    requires
        0 <= at <= s.len(),
        forall|i: int| 0 <= i < at ==> stays(#[trigger] s[i], x),
        at < s.len() ==> !stays(s[at], x),
    ensures
        run_before(s, x, stays) == at,
{
    lemma_run_before(s, x, stays);
    let r = run_before(s, x, stays);
    if r < at {
        assert(stays(s[r], x));
    } else if at < r {
        assert(stays(s[at], x));
    }
}

/// Inserting into an ordered sequence leaves it ordered.
pub proof fn lemma_insert_ordered<T>(s: Seq<T>, x: T, stays: spec_fn(T, T) -> bool)
    requires
        ordered(s, stays),
        connected(stays),
        transitive(stays),
    ensures
        ordered(insert_sorted(s, x, stays), stays),
{
    lemma_run_before(s, x, stays);
    let at = run_before(s, x, stays);
    let r = insert_sorted(s, x, stays);
    assert forall|i: int, j: int| 0 <= i < j < r.len() implies stays(
        #[trigger] r[i],
        #[trigger] r[j],
    ) by {
        if j < at {
            assert(r[i] == s[i] && r[j] == s[j]);
        } else if j == at {
            assert(r[i] == s[i]);
        } else if i < at {
            assert(r[i] == s[i] && r[j] == s[j - 1]);
        } else if i == at {
            assert(r[j] == s[j - 1]);
            assert(!stays(s[at], x));
            assert(stays(x, s[at]));
            if j - 1 > at {
                assert(stays(s[at], s[j - 1]));
            }
        } else {
            assert(r[i] == s[i - 1] && r[j] == s[j - 1]);
        }
    }
}

/// Sorting yields an ordered sequence.
pub proof fn lemma_sort_ordered<T>(s: Seq<T>, stays: spec_fn(T, T) -> bool)
    requires
        connected(stays),
        transitive(stays),
    ensures
        ordered(sort_by(s, stays), stays),
    decreases s.len(),
{
    if s.len() > 0 {
        lemma_sort_ordered(s.drop_last(), stays);
        lemma_insert_ordered(sort_by(s.drop_last(), stays), s.last(), stays);
    }
}

/// Sorting rearranges: the result holds the same elements, each as often.
pub proof fn lemma_sort_permutes<T>(s: Seq<T>, stays: spec_fn(T, T) -> bool)
    ensures
        sort_by(s, stays).len() == s.len(),
        sort_by(s, stays).to_multiset() == s.to_multiset(),
    decreases s.len(),
{
    broadcast use vstd::seq_lib::group_to_multiset_ensures;

    if s.len() == 0 {
        assert(sort_by(s, stays) =~= s);
    } else {
        let init = s.drop_last();
        let x = s.last();
        lemma_sort_permutes(init, stays);
        let sorted = sort_by(init, stays);
        lemma_run_before(sorted, x, stays);
        let at = run_before(sorted, x, stays);
        vstd::seq_lib::to_multiset_insert(sorted, at, x);
        vstd::seq_lib::to_multiset_build(init, x);
        assert(s =~= init.push(x));
    }
}

/// Behind a sequence whose elements may all stand before `x`, the run of
/// elements that may stand before `x` goes on into what follows.
pub proof fn lemma_run_before_concat<T>(a: Seq<T>, b: Seq<T>, x: T, stays: spec_fn(T, T) -> bool)
    requires
        forall|i: int| 0 <= i < a.len() ==> stays(#[trigger] a[i], x),
    ensures
        run_before(a + b, x, stays) == a.len() + run_before(b, x, stays),
{
    lemma_run_before(b, x, stays);
    let at = a.len() + run_before(b, x, stays);
    assert forall|i: int| 0 <= i < at implies stays(#[trigger] (a + b)[i], x) by {
        if i >= a.len() {
            assert((a + b)[i] == b[i - a.len()]);
        }
    }
    if at < (a + b).len() {
        assert((a + b)[at] == b[at - a.len()]);
    }
    lemma_run_before_is(a + b, x, stays, at);
}

/// Where every element of `a` may stand before every element of `b`,
/// sorting `a` followed by `b` is sorting each and putting the results
/// one behind the other.
pub proof fn lemma_sort_concat<T>(a: Seq<T>, b: Seq<T>, stays: spec_fn(T, T) -> bool)
    requires
        forall|i: int, j: int|
            0 <= i < a.len() && 0 <= j < b.len() ==> stays(#[trigger] a[i], #[trigger] b[j]),
    ensures
        sort_by(a + b, stays) == sort_by(a, stays) + sort_by(b, stays),
    decreases b.len(),
{
    if b.len() == 0 {
        assert(a + b =~= a);
        assert(sort_by(a, stays) + sort_by(b, stays) =~= sort_by(a, stays));
    } else {
        let init = b.drop_last();
        let x = b.last();
        assert((a + b).drop_last() =~= a + init);
        assert((a + b).last() == x);
        assert forall|i: int, j: int| 0 <= i < a.len() && 0 <= j < init.len() implies stays(
            #[trigger] a[i],
            #[trigger] init[j],
        ) by {
            assert(init[j] == b[j]);
        }
        lemma_sort_concat(a, init, stays);
        let front = sort_by(a, stays);
        let back = sort_by(init, stays);
        lemma_sort_permutes(a, stays);
        assert forall|i: int| 0 <= i < front.len() implies stays(#[trigger] front[i], x) by {
            vstd::seq_lib::to_multiset_contains(front, front[i]);
            vstd::seq_lib::to_multiset_contains(a, front[i]);
            assert(front.contains(front[i]));
            let k = choose|k: int| 0 <= k < a.len() && a[k] == front[i];
            assert(stays(a[k], b[b.len() - 1]));
        }
        lemma_run_before_concat(front, back, x, stays);
        lemma_run_before(back, x, stays);
        let r = run_before(back, x, stays);
        assert((front + back).insert(front.len() + r, x) =~= front + back.insert(r, x));
    }
}

/// Every element of a sorted sequence is an element of what was sorted;
/// the result is a position at which it stands there.
pub proof fn lemma_sorted_element<T>(s: Seq<T>, stays: spec_fn(T, T) -> bool, i: int) -> (k: int)
    requires
        0 <= i < sort_by(s, stays).len(),
    ensures
        0 <= k < s.len(),
        s[k] == sort_by(s, stays)[i],
{
    let sorted = sort_by(s, stays);
    lemma_sort_permutes(s, stays);
    vstd::seq_lib::to_multiset_contains(sorted, sorted[i]);
    vstd::seq_lib::to_multiset_contains(s, sorted[i]);
    assert(sorted.contains(sorted[i]));
    choose|k: int| 0 <= k < s.len() && s[k] == sorted[i]
}

/// Sorting keeps apart what a sequence keeps apart: where no two elements
/// of `s` have the same `key`, no two elements of the sorted sequence do.
pub proof fn lemma_sort_keeps_distinct<T, K>(
    s: Seq<T>,
    stays: spec_fn(T, T) -> bool,
    key: spec_fn(T) -> K,
)
    requires
        forall|i: int, j: int| 0 <= i < j < s.len() ==> key(#[trigger] s[i]) != key(#[trigger] s[j]),
    ensures
        forall|i: int, j: int|
            0 <= i < j < sort_by(s, stays).len() ==> key(#[trigger] sort_by(s, stays)[i]) != key(
                #[trigger] sort_by(s, stays)[j],
            ),
    decreases s.len(),
{
    if s.len() > 0 {
        let init = s.drop_last();
        let x = s.last();
        assert forall|i: int, j: int| 0 <= i < j < init.len() implies key(#[trigger] init[i])
            != key(#[trigger] init[j]) by {
            assert(init[i] == s[i] && init[j] == s[j]);
        }
        lemma_sort_keeps_distinct(init, stays, key);
        let sorted = sort_by(init, stays);
        lemma_run_before(sorted, x, stays);
        let at = run_before(sorted, x, stays);
        let r = sort_by(s, stays);
        assert(r == sorted.insert(at, x));
        assert forall|i: int| 0 <= i < sorted.len() implies key(#[trigger] sorted[i]) != key(x) by {
            let k = lemma_sorted_element(init, stays, i);
            assert(init[k] == s[k]);
            assert(key(s[k]) != key(s[s.len() - 1]));
        }
        assert forall|i: int, j: int| 0 <= i < j < r.len() implies key(#[trigger] r[i]) != key(
            #[trigger] r[j],
        ) by {
            let i0 = if i < at { i } else { i - 1 };
            let j0 = if j < at { j } else { j - 1 };
            if i == at {
                assert(r[j] == sorted[j0]);
            } else if j == at {
                assert(r[i] == sorted[i0]);
            } else {
                assert(r[i] == sorted[i0] && r[j] == sorted[j0]);
            }
        }
    }
}

} // verus!
