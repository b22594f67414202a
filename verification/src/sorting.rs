//! Stable sorting of lengths, ascending or descending.

use vstd::prelude::*;

verus! {

/// Whether `a` may stand before `b`.
pub open spec fn in_order(a: i64, b: i64, descending: bool) -> bool {
    if descending {
        a >= b
    } else {
        a <= b
    }
}

/// `s` with `x` put in behind the last value that may stand before it.
pub open spec fn sorted_insert(s: Seq<i64>, x: i64, descending: bool) -> Seq<i64>
    decreases s.len(),
{
    if s.len() == 0 {
        seq![x]
    } else if in_order(s.last(), x, descending) {
        s.push(x)
    } else {
        sorted_insert(s.drop_last(), x, descending).push(s.last())
    }
}

/// The first `n` values of `s`, sorted; equal values keep their order.
pub open spec fn sort_upto(s: Seq<i64>, n: int, descending: bool) -> Seq<i64>
    decreases n,
{
    if n <= 0 {
        Seq::empty()
    } else {
        sorted_insert(sort_upto(s, n - 1, descending), s[n - 1], descending)
    }
}

/// All of `s`, sorted.
pub open spec fn sorted(s: Seq<i64>, descending: bool) -> Seq<i64> {
    sort_upto(s, s.len() as int, descending)
}

/// Inserting at the place found from the end is what `sorted_insert` does.
pub proof fn lemma_sorted_insert_at(s: Seq<i64>, x: i64, descending: bool, pos: int)
    requires
        0 <= pos <= s.len(),
        pos > 0 ==> in_order(s[pos - 1], x, descending),
        forall|k: int| pos <= k < s.len() ==> !in_order(#[trigger] s[k], x, descending),
    ensures
        sorted_insert(s, x, descending) == s.insert(pos, x),
    decreases s.len(),
{
    if pos < s.len() {
        let t = s.drop_last();
        lemma_sorted_insert_at(t, x, descending, pos);
    }
}

/// Whether each value of `s` may stand before every later one.
pub open spec fn is_ordered(s: Seq<i64>, descending: bool) -> bool {
    forall|i: int, j: int| 0 <= i <= j < s.len() ==> in_order(s[i], s[j], descending)
}

/// What may stand behind all of `s` and behind `x` may stand behind all of
/// `s` with `x` put in, which is one value longer than `s`.
pub proof fn lemma_sorted_insert_bound(s: Seq<i64>, x: i64, descending: bool, bound: i64)
    requires
        in_order(x, bound, descending),
        forall|k: int| 0 <= k < s.len() ==> in_order(#[trigger] s[k], bound, descending),
    ensures
        sorted_insert(s, x, descending).len() == s.len() + 1,
        forall|k: int|
            0 <= k < sorted_insert(s, x, descending).len() ==> in_order(
                #[trigger] sorted_insert(s, x, descending)[k],
                bound,
                descending,
            ),
    decreases s.len(),
{
    if s.len() > 0 && !in_order(s.last(), x, descending) {
        let t = s.drop_last();
        lemma_sorted_insert_bound(t, x, descending, bound);
    }
}

/// Putting a value into an ordered sequence leaves it ordered.
pub proof fn lemma_sorted_insert_ordered(s: Seq<i64>, x: i64, descending: bool)
    requires
        is_ordered(s, descending),
    ensures
        is_ordered(sorted_insert(s, x, descending), descending),
    decreases s.len(),
{
    if s.len() > 0 && !in_order(s.last(), x, descending) {
        let t = s.drop_last();
        lemma_sorted_insert_ordered(t, x, descending);
        lemma_sorted_insert_bound(t, x, descending, s.last());
    } else if s.len() > 0 {
        assert forall|i: int, j: int| 0 <= i <= j < s.push(x).len() implies in_order(
            s.push(x)[i],
            s.push(x)[j],
            descending,
        ) by {
            if i < s.len() <= j {
                assert(in_order(s[i], s[s.len() - 1], descending));
            }
        }
    }
}

/// Putting a value into a sequence adds that value and no other.
pub proof fn lemma_sorted_insert_values(s: Seq<i64>, x: i64, descending: bool)
    ensures
        sorted_insert(s, x, descending).to_multiset() == s.to_multiset().insert(x),
    decreases s.len(),
{
    broadcast use vstd::seq_lib::group_to_multiset_ensures;

    if s.len() > 0 && !in_order(s.last(), x, descending) {
        let t = s.drop_last();
        lemma_sorted_insert_values(t, x, descending);
        assert(s =~= t.push(s.last()));
    }
}

/// Sorting law: the sorted values are the values given.
pub proof fn lemma_sorted_is_permutation(s: Seq<i64>, n: int, descending: bool)
    requires
        0 <= n <= s.len(),
    ensures
        sort_upto(s, n, descending).to_multiset() == s.take(n).to_multiset(),
    decreases n,
{
    broadcast use vstd::seq_lib::group_to_multiset_ensures;

    if n > 0 {
        lemma_sorted_is_permutation(s, n - 1, descending);
        lemma_sorted_insert_values(sort_upto(s, n - 1, descending), s[n - 1], descending);
        assert(s.take(n) =~= s.take(n - 1).push(s[n - 1]));
    }
}

/// Sorting law: the sorted values are in order, and as many as were given.
pub proof fn lemma_sorted_is_ordered(s: Seq<i64>, n: int, descending: bool)
    requires
        0 <= n,
    ensures
        is_ordered(sort_upto(s, n, descending), descending),
        sort_upto(s, n, descending).len() == n,
    decreases n,
{
    if n > 0 {
        lemma_sorted_is_ordered(s, n - 1, descending);
        let t = sort_upto(s, n - 1, descending);
        lemma_sorted_insert_ordered(t, s[n - 1], descending);
        if descending {
            lemma_sorted_insert_bound(t, s[n - 1], descending, i64::MIN);
        } else {
            lemma_sorted_insert_bound(t, s[n - 1], descending, i64::MAX);
        }
    }
}

/// Whether `a` may stand before `b`.
pub fn stands_before(a: i64, b: i64, descending: bool) -> (r: bool)
    ensures
        r == in_order(a, b, descending),
{
    if descending {
        a >= b
    } else {
        a <= b
    }
}

/// The values in order; equal values keep their order.
pub fn sort_values(v: &Vec<i64>, descending: bool) -> (r: Vec<i64>)
    ensures
        r@ == sorted(v@, descending),
        is_ordered(r@, descending),
        r.len() == v.len(),
{
    let mut r: Vec<i64> = Vec::new();
    let mut i: usize = 0;
    while i < v.len()
        invariant
            i <= v.len(),
            r@ == sort_upto(v@, i as int, descending),
            r.len() == i,
        decreases v.len() - i,
    {
        let x = v[i];
        let mut pos: usize = r.len();
        while pos > 0 && !stands_before(r[pos - 1], x, descending)
            invariant
                pos <= r.len(),
                forall|k: int| pos <= k < r.len() ==> !in_order(#[trigger] r@[k], x, descending),
            decreases pos,
        {
            pos -= 1;
        }
        proof {
            lemma_sorted_insert_at(r@, x, descending, pos as int);
        }
        r.insert(pos, x);
        i += 1;
    }
    proof {
        lemma_sorted_is_ordered(v@, v.len() as int, descending);
    }
    r
}

} // verus!
