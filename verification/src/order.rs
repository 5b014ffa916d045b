//! A specification-level stable insertion sort. Executable sorting code in
//! the catalog builder, store and ranker is proven to return exactly
//! `spec_sort` of its input, which pins the order of equal elements: a new
//! element goes after every element already placed that compares
//! less-or-equal to it.
use vstd::prelude::*;
use vstd::relations::{sorted_by, strongly_connected, transitive};
use vstd::seq_lib::*;

verus! {

/// Inserts `x` after every leading element that is `le` it.
pub open spec fn spec_insert<T>(s: Seq<T>, x: T, le: spec_fn(T, T) -> bool) -> Seq<T>
    decreases s.len(),
{
    if s.len() == 0 {
        seq![x]
    } else if le(s[0], x) {
        seq![s[0]] + spec_insert(s.drop_first(), x, le)
    } else {
        seq![x] + s
    }
}

/// Sorts by inserting the elements left to right; equal elements keep
/// their relative order.
pub open spec fn spec_sort<T>(s: Seq<T>, le: spec_fn(T, T) -> bool) -> Seq<T>
    decreases s.len(),
{
    if s.len() == 0 {
        Seq::empty()
    } else {
        spec_insert(spec_sort(s.drop_last(), le), s.last(), le)
    }
}

/// Where `x` lands: at the first position whose element is not `le` it.
pub proof fn lemma_insert_split<T>(s: Seq<T>, x: T, le: spec_fn(T, T) -> bool, p: int)
    requires
        0 <= p <= s.len(),
        forall|k: int| 0 <= k < p ==> le(#[trigger] s[k], x),
        p < s.len() ==> !le(s[p], x),
    ensures
        spec_insert(s, x, le) =~= s.subrange(0, p) + seq![x] + s.subrange(p, s.len() as int),
    decreases s.len(),
{
    if s.len() == 0 {
        assert(s.subrange(0, 0) =~= Seq::<T>::empty());
    } else if p == 0 {
        assert(s.subrange(0, 0) =~= Seq::<T>::empty());
        assert(s.subrange(0, s.len() as int) =~= s);
    } else {
        let t = s.drop_first();
        assert(forall|k: int| 0 <= k < p - 1 ==> le(#[trigger] t[k], x));
        lemma_insert_split(t, x, le, p - 1);
        assert(t.subrange(0, p - 1) =~= s.subrange(1, p));
        assert(t.subrange(p - 1, t.len() as int) =~= s.subrange(p, s.len() as int));
    }
}

/// Inserting adds exactly one occurrence of `x` to the contents.
pub proof fn lemma_insert_multiset<T>(s: Seq<T>, x: T, le: spec_fn(T, T) -> bool)
    ensures
        spec_insert(s, x, le).to_multiset() == s.to_multiset().insert(x),
        spec_insert(s, x, le).len() == s.len() + 1,
    decreases s.len(),
{
    broadcast use vstd::seq_lib::group_to_multiset_ensures;
    broadcast use vstd::multiset::group_multiset_axioms;

    if s.len() == 0 {
        assert(seq![x] =~= Seq::<T>::empty().push(x));
        assert(seq![x].to_multiset() =~= s.to_multiset().insert(x));
    } else if le(s[0], x) {
        let t = s.drop_first();
        lemma_insert_multiset(t, x, le);
        assert(seq![s[0]] + spec_insert(t, x, le) =~= spec_insert(t, x, le).insert(0, s[0]));
        to_multiset_insert(spec_insert(t, x, le), 0, s[0]);
        assert(seq![s[0]] + t =~= t.insert(0, s[0]));
        to_multiset_insert(t, 0, s[0]);
        assert(seq![s[0]] + t =~= s);
        assert(spec_insert(s, x, le).to_multiset() =~= s.to_multiset().insert(x));
    } else {
        assert(seq![x] + s =~= s.insert(0, x));
        to_multiset_insert(s, 0, x);
        assert(spec_insert(s, x, le).to_multiset() =~= s.to_multiset().insert(x));
    }
}

/// Everything in the inserted sequence was there before or is `x`.
pub proof fn lemma_insert_contains<T>(s: Seq<T>, x: T, le: spec_fn(T, T) -> bool, e: T)
    requires
        spec_insert(s, x, le).contains(e),
    ensures
        s.contains(e) || e == x,
{
    broadcast use vstd::seq_lib::group_to_multiset_ensures;
    broadcast use vstd::multiset::group_multiset_axioms;

    lemma_insert_multiset(s, x, le);
    assert(spec_insert(s, x, le).to_multiset().count(e) > 0);
}

/// Inserting into a sorted sequence keeps it sorted.
pub proof fn lemma_insert_sorted<T>(s: Seq<T>, x: T, le: spec_fn(T, T) -> bool)
    requires
        sorted_by(s, le),
        transitive(le),
        strongly_connected(le),
    ensures
        sorted_by(spec_insert(s, x, le), le),
    decreases s.len(),
{
    if s.len() == 0 {
    } else if le(s[0], x) {
        let t = s.drop_first();
        assert(sorted_by(t, le)) by {
            assert(forall|i: int, j: int|
                0 <= i < j < t.len() ==> le(#[trigger] t[i], #[trigger] t[j]));
        }
        lemma_insert_sorted(t, x, le);
        let q = spec_insert(t, x, le);
        let r = seq![s[0]] + q;
        assert forall|i: int, j: int| 0 <= i < j < r.len() implies #[trigger] le(r[i], r[j]) by {
            if i == 0 {
                assert(q.contains(q[j - 1]));
                lemma_insert_contains(t, x, le, q[j - 1]);
                if q[j - 1] == x {
                    assert(le(s[0], x));
                } else {
                    let k = choose|k: int| 0 <= k < t.len() && t[k] == q[j - 1];
                    assert(le(s[0], s[k + 1]));
                }
            } else {
                assert(le(q[i - 1], q[j - 1]));
            }
        }
    } else {
        assert(le(x, s[0]));
        let r = seq![x] + s;
        assert forall|i: int, j: int| 0 <= i < j < r.len() implies #[trigger] le(r[i], r[j]) by {
            if i == 0 {
                if j == 1 {
                } else {
                    assert(le(s[0], s[j - 1]));
                }
            } else {
                assert(le(s[i - 1], s[j - 1]));
            }
        }
    }
}

/// The stable sort returns a sorted permutation of its input.
pub proof fn lemma_sort_ensures<T>(s: Seq<T>, le: spec_fn(T, T) -> bool)
    requires
        transitive(le),
        strongly_connected(le),
    ensures
        sorted_by(spec_sort(s, le), le),
        spec_sort(s, le).to_multiset() == s.to_multiset(),
        spec_sort(s, le).len() == s.len(),
    decreases s.len(),
{
    broadcast use vstd::seq_lib::group_to_multiset_ensures;
    broadcast use vstd::multiset::group_multiset_axioms;

    if s.len() == 0 {
    } else {
        let t = s.drop_last();
        lemma_sort_ensures(t, le);
        lemma_insert_sorted(spec_sort(t, le), s.last(), le);
        lemma_insert_multiset(spec_sort(t, le), s.last(), le);
        assert(s =~= t.push(s.last()));
        assert(t.push(s.last()).to_multiset() =~= t.to_multiset().insert(s.last()));
    }
}

/// If `x` compares after everything present, it is appended.
pub proof fn lemma_insert_at_end<T>(s: Seq<T>, x: T, le: spec_fn(T, T) -> bool)
    requires
        forall|k: int| 0 <= k < s.len() ==> le(#[trigger] s[k], x),
    ensures
        spec_insert(s, x, le) =~= s.push(x),
    decreases s.len(),
{
    if s.len() == 0 {
        assert(seq![x] =~= Seq::<T>::empty().push(x));
    } else {
        let t = s.drop_first();
        lemma_insert_at_end(t, x, le);
        assert(seq![s[0]] + t.push(x) =~= s.push(x));
    }
}

/// Sorting a sequence that is already sorted leaves it unchanged.
pub proof fn lemma_sort_of_sorted<T>(s: Seq<T>, le: spec_fn(T, T) -> bool)
    requires
        sorted_by(s, le),
    ensures
        spec_sort(s, le) =~= s,
    decreases s.len(),
{
    if s.len() > 0 {
        let t = s.drop_last();
        assert(sorted_by(t, le)) by {
            assert(forall|i: int, j: int|
                0 <= i < j < t.len() ==> le(#[trigger] t[i], #[trigger] t[j]));
        }
        lemma_sort_of_sorted(t, le);
        assert(forall|k: int| 0 <= k < t.len() ==> le(#[trigger] t[k], s.last()));
        lemma_insert_at_end(t, s.last(), le);
        assert(t.push(s.last()) =~= s);
    }
}

/// Two sequences sorted by the same total preorder, holding the same
/// contents, with no two tied elements among them, are identical: the
/// order a catalog sorted by distinct keys ends up in does not depend on
/// the order the entries arrived in.
pub proof fn lemma_sorted_unique_no_ties<T>(x: Seq<T>, y: Seq<T>, le: spec_fn(T, T) -> bool)
    requires
        transitive(le),
        strongly_connected(le),
        sorted_by(x, le),
        sorted_by(y, le),
        x.to_multiset() == y.to_multiset(),
        forall|i: int, j: int|
            0 <= i < j < x.len() ==> !(le(#[trigger] x[i], #[trigger] x[j]) && le(x[j], x[i])),
    ensures
        x =~= y,
    decreases x.len(),
{
    broadcast use vstd::seq_lib::group_to_multiset_ensures;
    broadcast use vstd::multiset::group_multiset_axioms;

    if x.len() == 0 {
        assert(y.to_multiset().len() == 0);
    } else if y.len() == 0 {
        assert(x.to_multiset().len() == 0);
    } else {
        assert(x.to_multiset().contains(x[0]));
        assert(y.contains(x[0])) by {
            assert(y.to_multiset().count(x[0]) > 0);
        }
        assert(x.contains(y[0])) by {
            assert(x.to_multiset().count(y[0]) > 0);
        }
        let i = choose|i: int| 0 <= i < x.len() && x[i] == y[0];
        let j = choose|j: int| 0 <= j < y.len() && y[j] == x[0];
        if i == 0 || j == 0 {
            assert(x[0] == y[0]);
        } else {
            assert(le(x[0], x[i]));
            assert(le(y[0], y[j]));
            assert(le(x[i], x[0]));
            assert(false);
        }
        assert(x.drop_first().to_multiset() =~= x.to_multiset().remove(x[0])) by {
            assert(x.drop_first() =~= x.remove(0));
        }
        assert(y.drop_first().to_multiset() =~= y.to_multiset().remove(y[0])) by {
            assert(y.drop_first() =~= y.remove(0));
        }
        let xt = x.drop_first();
        let yt = y.drop_first();
        assert(sorted_by(xt, le)) by {
            assert(forall|a: int, b: int|
                0 <= a < b < xt.len() ==> le(#[trigger] xt[a], #[trigger] xt[b]));
        }
        assert(sorted_by(yt, le)) by {
            assert(forall|a: int, b: int|
                0 <= a < b < yt.len() ==> le(#[trigger] yt[a], #[trigger] yt[b]));
        }
        assert(forall|a: int, b: int|
            0 <= a < b < xt.len() ==> !(le(#[trigger] xt[a], #[trigger] xt[b]) && le(
                xt[b],
                xt[a],
            )));
        lemma_sorted_unique_no_ties(xt, yt, le);
        assert(x =~= seq![x[0]] + xt);
        assert(y =~= seq![y[0]] + yt);
    }
}

} // verus!
