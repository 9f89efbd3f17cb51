//! A stable merge sort.

use vstd::prelude::*;
use vstd::seq_lib::lemma_multiset_commutative;

verus! {

/// `le` compares the members of `domain` by a rank.
pub open spec fn ranks<T, F: Fn(T, T) -> bool>(
    le: F,
    rank: spec_fn(T) -> int,
    domain: Set<T>,
) -> bool {
    forall|a: T, b: T, r: bool| #[trigger]
        le.ensures((a, b), r) && domain.contains(a) && domain.contains(b) ==> r == (rank(a) <= rank(
            b,
        ))
}

/// All items are in `domain`.
pub open spec fn within<T>(s: Seq<T>, domain: Set<T>) -> bool {
    forall|k: int| 0 <= k < s.len() ==> domain.contains(#[trigger] s[k])
}

/// The ranks ascend.
pub open spec fn by_rank<T>(s: Seq<T>, rank: spec_fn(T) -> int) -> bool {
    forall|k: int, l: int| 0 <= k <= l < s.len() ==> rank(#[trigger] s[k]) <= rank(#[trigger] s[l])
}

/// The items of rank `x`, in order.
pub open spec fn of_rank<T>(s: Seq<T>, rank: spec_fn(T) -> int, x: int) -> Seq<T>
    decreases s.len(),
{
    if s.len() == 0 {
        seq![]
    } else {
        let before = of_rank(s.drop_last(), rank, x);
        if rank(s.last()) == x {
            before.push(s.last())
        } else {
            before
        }
    }
}

/// `r` holds the items of `s` by ascending rank, those of equal rank in their order in `s`.
pub open spec fn stably_sorted<T>(s: Seq<T>, r: Seq<T>, rank: spec_fn(T) -> int) -> bool {
    &&& by_rank(r, rank)
    &&& forall|x: int| #[trigger] of_rank(r, rank, x) == of_rank(s, rank, x)
}

proof fn lemma_of_rank_push<T>(s: Seq<T>, t: T, rank: spec_fn(T) -> int, x: int)
    ensures
        of_rank(s.push(t), rank, x) == if rank(t) == x {
            of_rank(s, rank, x).push(t)
        } else {
            of_rank(s, rank, x)
        },
{
    assert(s.push(t).drop_last() =~= s);
}

proof fn lemma_of_rank_add<T>(s: Seq<T>, t: Seq<T>, rank: spec_fn(T) -> int, x: int)
    ensures
        of_rank(s + t, rank, x) == of_rank(s, rank, x) + of_rank(t, rank, x),
    decreases t.len(),
{
    if t.len() == 0 {
        assert(s + t =~= s);
    } else {
        lemma_of_rank_add(s, t.drop_last(), rank, x);
        assert((s + t).drop_last() =~= s + t.drop_last());
    }
}

proof fn lemma_of_rank_none<T>(s: Seq<T>, rank: spec_fn(T) -> int, x: int)
    requires
        forall|k: int| 0 <= k < s.len() ==> rank(#[trigger] s[k]) != x,
    ensures
        of_rank(s, rank, x) == Seq::<T>::empty(),
    decreases s.len(),
{
    if s.len() > 0 {
        lemma_of_rank_none(s.drop_last(), rank, x);
    }
}

/// `le` ranks the items of two sorted lists.
spec fn mergeable<T, F: Fn(T, T) -> bool>(
    le: F,
    a: Seq<T>,
    b: Seq<T>,
    rank: spec_fn(T) -> int,
    domain: Set<T>,
) -> bool {
    &&& ranks(le, rank, domain)
    &&& within(a, domain)
    &&& within(b, domain)
    &&& by_rank(a, rank)
    &&& by_rank(b, rank)
}

/// The state of a merge that has taken `i` items of `a` and `j` of `b`.
spec fn merging<T>(a: Seq<T>, b: Seq<T>, r: Seq<T>, i: int, j: int, rank: spec_fn(T) -> int) -> bool {
    &&& by_rank(r, rank)
    &&& forall|k: int| 0 <= k < r.len() && i < a.len() ==> rank(#[trigger] r[k]) <= rank(a[i])
    &&& forall|k: int| 0 <= k < r.len() && j < b.len() ==> rank(#[trigger] r[k]) <= rank(b[j])
    &&& forall|k: int| 0 <= k < j && i < a.len() ==> rank(#[trigger] b[k]) < rank(a[i])
    &&& forall|x: int| #[trigger]
        of_rank(r, rank, x) == of_rank(a.take(i), rank, x) + of_rank(b.take(j), rank, x)
}

proof fn lemma_merge_takes_a<T>(
    a: Seq<T>,
    b: Seq<T>,
    r: Seq<T>,
    i: int,
    j: int,
    rank: spec_fn(T) -> int,
)
    requires
        0 <= i < a.len(),
        0 <= j <= b.len(),
        by_rank(a, rank),
        by_rank(b, rank),
        merging(a, b, r, i, j, rank),
        j < b.len() ==> rank(a[i]) <= rank(b[j]),
    ensures
        merging(a, b, r.push(a[i]), i + 1, j, rank),
{
    let r2 = r.push(a[i]);
    assert(a.take(i + 1) =~= a.take(i).push(a[i]));
    assert forall|x: int| #[trigger]
        of_rank(r2, rank, x) == of_rank(a.take(i + 1), rank, x) + of_rank(b.take(j), rank, x) by {
        lemma_of_rank_push(r, a[i], rank, x);
        lemma_of_rank_push(a.take(i), a[i], rank, x);
        assert(of_rank(r, rank, x) == of_rank(a.take(i), rank, x) + of_rank(b.take(j), rank, x));
        if rank(a[i]) == x {
            assert forall|k: int| 0 <= k < j implies rank(#[trigger] b.take(j)[k]) != x by {
                assert(rank(b[k]) < rank(a[i]));
            }
            lemma_of_rank_none(b.take(j), rank, x);
        }
        assert(of_rank(r2, rank, x) =~= of_rank(a.take(i + 1), rank, x) + of_rank(
            b.take(j),
            rank,
            x,
        ));
    }
    if i + 1 < a.len() {
        assert(rank(a[i]) <= rank(a[i + 1]));
    }
}

proof fn lemma_merge_takes_b<T>(
    a: Seq<T>,
    b: Seq<T>,
    r: Seq<T>,
    i: int,
    j: int,
    rank: spec_fn(T) -> int,
)
    requires
        0 <= i <= a.len(),
        0 <= j < b.len(),
        by_rank(a, rank),
        by_rank(b, rank),
        merging(a, b, r, i, j, rank),
        i < a.len() ==> rank(b[j]) < rank(a[i]),
    ensures
        merging(a, b, r.push(b[j]), i, j + 1, rank),
{
    let r2 = r.push(b[j]);
    assert(b.take(j + 1) =~= b.take(j).push(b[j]));
    assert forall|x: int| #[trigger]
        of_rank(r2, rank, x) == of_rank(a.take(i), rank, x) + of_rank(b.take(j + 1), rank, x) by {
        lemma_of_rank_push(r, b[j], rank, x);
        lemma_of_rank_push(b.take(j), b[j], rank, x);
        assert(of_rank(r, rank, x) == of_rank(a.take(i), rank, x) + of_rank(b.take(j), rank, x));
        assert(of_rank(r2, rank, x) =~= of_rank(a.take(i), rank, x) + of_rank(
            b.take(j + 1),
            rank,
            x,
        ));
    }
    if j + 1 < b.len() {
        assert(rank(b[j]) <= rank(b[j + 1]));
    }
}

/// Merges two sorted lists; of equal items those of `a` come first.
fn merge<T: Copy, F: Fn(T, T) -> bool>(a: &Vec<T>, b: &Vec<T>, le: &F) -> (r: Vec<T>)
    requires
        forall|x: T, y: T| #[trigger] le.requires((x, y)),
    ensures
        r@.to_multiset() == a@.to_multiset().add(b@.to_multiset()),
        r@.len() == a@.len() + b@.len(),
        forall|rank: spec_fn(T) -> int, domain: Set<T>|
            #![trigger ranks(*le, rank, domain)]
            mergeable(*le, a@, b@, rank, domain) ==> stably_sorted(
                a@ + b@,
                r@,
                rank,
            ),
{
    broadcast use vstd::seq_lib::group_to_multiset_ensures;

    let mut r: Vec<T> = Vec::new();
    let mut i: usize = 0;
    let mut j: usize = 0;
    proof {
        assert(a@.take(0) =~= seq![]);
        assert(b@.take(0) =~= seq![]);
        assert(r@.to_multiset() =~= a@.take(0).to_multiset().add(b@.take(0).to_multiset()));
        assert forall|rank: spec_fn(T) -> int, domain: Set<T>|
            #![trigger ranks(*le, rank, domain)]
            mergeable(*le, a@, b@, rank, domain) implies merging(
            a@,
            b@,
            r@,
            0,
            0,
            rank,
        ) by {
            assert forall|x: int| #[trigger]
                of_rank(r@, rank, x) == of_rank(a@.take(0), rank, x) + of_rank(
                    b@.take(0),
                    rank,
                    x,
                ) by {
                assert(Seq::<T>::empty() + Seq::<T>::empty() =~= Seq::<T>::empty());
            }
        }
    }
    while i < a.len() || j < b.len()
        invariant
            i <= a.len(),
            j <= b.len(),
            forall|x: T, y: T| #[trigger] le.requires((x, y)),
            r@.len() == i + j,
            r@.to_multiset() == a@.take(i as int).to_multiset().add(
                b@.take(j as int).to_multiset(),
            ),
            forall|rank: spec_fn(T) -> int, domain: Set<T>|
                #![trigger ranks(*le, rank, domain)]
                mergeable(*le, a@, b@, rank, domain) ==> merging(
                    a@,
                    b@,
                    r@,
                    i as int,
                    j as int,
                    rank,
                ),
        decreases a.len() - i + (b.len() - j),
    {
        let take_a: bool = if j >= b.len() {
            true
        } else if i >= a.len() {
            false
        } else {
            le(a[i], b[j])
        };
        let ghost before = r@;
        if take_a {
            r.push(a[i]);
            proof {
                broadcast use vstd::seq_lib::group_to_multiset_ensures;
                assert(a@.take(i + 1) =~= a@.take(i as int).push(a@[i as int]));
                assert(r@ == before.push(a@[i as int]));
                assert(r@.to_multiset() =~= a@.take(i + 1).to_multiset().add(
                    b@.take(j as int).to_multiset(),
                ));
                assert forall|rank: spec_fn(T) -> int, domain: Set<T>|
                    #![trigger ranks(*le, rank, domain)]
                    mergeable(*le, a@, b@, rank, domain) implies merging(
                    a@,
                    b@,
                    r@,
                    i + 1,
                    j as int,
                    rank,
                ) by {
                    lemma_merge_takes_a(a@, b@, before, i as int, j as int, rank);
                }
            }
            i = i + 1;
        } else {
            r.push(b[j]);
            proof {
                broadcast use vstd::seq_lib::group_to_multiset_ensures;
                assert(b@.take(j + 1) =~= b@.take(j as int).push(b@[j as int]));
                assert(r@ == before.push(b@[j as int]));
                assert(r@.to_multiset() =~= a@.take(i as int).to_multiset().add(
                    b@.take(j + 1).to_multiset(),
                ));
                assert forall|rank: spec_fn(T) -> int, domain: Set<T>|
                    #![trigger ranks(*le, rank, domain)]
                    mergeable(*le, a@, b@, rank, domain) implies merging(
                    a@,
                    b@,
                    r@,
                    i as int,
                    j + 1,
                    rank,
                ) by {
                    lemma_merge_takes_b(a@, b@, before, i as int, j as int, rank);
                }
            }
            j = j + 1;
        }
    }
    proof {
        assert(a@.take(i as int) =~= a@);
        assert(b@.take(j as int) =~= b@);
        assert forall|rank: spec_fn(T) -> int, domain: Set<T>|
            #![trigger ranks(*le, rank, domain)]
            mergeable(*le, a@, b@, rank, domain) implies stably_sorted(
            a@ + b@,
            r@,
            rank,
        ) by {
            assert(merging(a@, b@, r@, i as int, j as int, rank));
            assert forall|x: int| #[trigger] of_rank(r@, rank, x) == of_rank(a@ + b@, rank, x) by {
                lemma_of_rank_add(a@, b@, rank, x);
            }
        }
    }
    r
}

proof fn lemma_within_kept<T>(s: Seq<T>, r: Seq<T>, domain: Set<T>)
    requires
        within(s, domain),
        r.to_multiset() == s.to_multiset(),
    ensures
        within(r, domain),
{
    assert forall|k: int| 0 <= k < r.len() implies domain.contains(#[trigger] r[k]) by {
        lemma_same_items(r, s, r[k]);
        assert(r.contains(r[k]));
    }
}

/// Sorts `v[lo .. hi]`.
fn sort_range<T: Copy, F: Fn(T, T) -> bool>(v: &[T], lo: usize, hi: usize, le: &F) -> (r: Vec<T>)
    requires
        lo <= hi <= v@.len(),
        forall|x: T, y: T| #[trigger] le.requires((x, y)),
    ensures
        r@.to_multiset() == v@.subrange(lo as int, hi as int).to_multiset(),
        r@.len() == hi - lo,
        forall|rank: spec_fn(T) -> int, domain: Set<T>| #[trigger]
            ranks(*le, rank, domain) && within(v@.subrange(lo as int, hi as int), domain)
                ==> stably_sorted(v@.subrange(lo as int, hi as int), r@, rank),
    decreases hi - lo,
{
    let ghost all = v@.subrange(lo as int, hi as int);
    if hi - lo <= 1 {
        let mut r: Vec<T> = Vec::new();
        if lo < hi {
            r.push(v[lo]);
        }
        assert(r@ =~= all);
        return r;
    }
    let mid: usize = lo + (hi - lo) / 2;
    let a = sort_range(v, lo, mid, le);
    let b = sort_range(v, mid, hi, le);
    let r = merge(&a, &b, le);
    proof {
        let left = v@.subrange(lo as int, mid as int);
        let right = v@.subrange(mid as int, hi as int);
        lemma_multiset_commutative(left, right);
        assert(left + right =~= all);
        assert forall|rank: spec_fn(T) -> int, domain: Set<T>| #[trigger]
            ranks(*le, rank, domain) && within(all, domain) implies stably_sorted(
            all,
            r@,
            rank,
        ) by {
            assert forall|k: int| 0 <= k < left.len() implies domain.contains(
                #[trigger] left[k],
            ) by {
                assert(left[k] == all[k]);
            }
            assert forall|k: int| 0 <= k < right.len() implies domain.contains(
                #[trigger] right[k],
            ) by {
                assert(right[k] == all[mid - lo + k]);
            }
            lemma_within_kept(left, a@, domain);
            lemma_within_kept(right, b@, domain);
            assert(mergeable(*le, a@, b@, rank, domain));
            assert(stably_sorted(left, a@, rank));
            assert(stably_sorted(right, b@, rank));
            assert(stably_sorted(a@ + b@, r@, rank));
            assert forall|x: int| #[trigger] of_rank(r@, rank, x) == of_rank(all, rank, x) by {
                lemma_of_rank_add(a@, b@, rank, x);
                lemma_of_rank_add(left, right, rank, x);
                assert(of_rank(a@, rank, x) == of_rank(left, rank, x));
                assert(of_rank(b@, rank, x) == of_rank(right, rank, x));
            }
        }
    }
    r
}

/// The items of `v` in the order of `le`, equal ones in the order they have in `v`. Where `le` does
/// not compare the items by a rank, the result still holds the same items.
pub fn stable_sort<T: Copy, F: Fn(T, T) -> bool>(v: &[T], le: &F) -> (r: Vec<T>)
    requires
        forall|x: T, y: T| #[trigger] le.requires((x, y)),
    ensures
        r@.to_multiset() == v@.to_multiset(),
        r@.len() == v@.len(),
        forall|rank: spec_fn(T) -> int, domain: Set<T>| #[trigger]
            ranks(*le, rank, domain) && within(v@, domain) ==> stably_sorted(v@, r@, rank),
{
    let r = sort_range(v, 0, v.len(), le);
    assert(v@.subrange(0, v@.len() as int) =~= v@);
    r
}

/// A list in rank order is decided by its items of each rank.
pub proof fn law_stable_sort_unique<T>(
    s: Seq<T>,
    a: Seq<T>,
    b: Seq<T>,
    rank: spec_fn(T) -> int,
)
    requires
        stably_sorted(s, a, rank),
        stably_sorted(s, b, rank),
    ensures
        a == b,
{
    lemma_by_ranks_equal(a, b, rank);
}

proof fn lemma_of_rank_has<T>(s: Seq<T>, rank: spec_fn(T) -> int, k: int)
    requires
        0 <= k < s.len(),
    ensures
        of_rank(s, rank, rank(s[k])).len() > 0,
    decreases s.len(),
{
    if k < s.len() - 1 {
        lemma_of_rank_has(s.drop_last(), rank, k);
    }
}

proof fn lemma_of_rank_last<T>(s: Seq<T>, rank: spec_fn(T) -> int, x: int)
    requires
        of_rank(s, rank, x).len() > 0,
    ensures
        exists|k: int| 0 <= k < s.len() && rank(#[trigger] s[k]) == x,
    decreases s.len(),
{
    if rank(s.last()) == x {
        assert(rank(s[s.len() - 1]) == x);
    } else {
        lemma_of_rank_last(s.drop_last(), rank, x);
        let k = choose|k: int| 0 <= k < s.drop_last().len() && rank(#[trigger] s.drop_last()[k]) == x;
        assert(rank(s[k]) == x);
    }
}

proof fn lemma_by_ranks_equal<T>(a: Seq<T>, b: Seq<T>, rank: spec_fn(T) -> int)
    requires
        by_rank(a, rank),
        by_rank(b, rank),
        forall|x: int| #[trigger] of_rank(a, rank, x) == of_rank(b, rank, x),
    ensures
        a == b,
    decreases a.len(),
{
    if a.len() == 0 {
        if b.len() > 0 {
            lemma_of_rank_has(b, rank, 0);
            assert(of_rank(a, rank, rank(b[0])) == of_rank(b, rank, rank(b[0])));
        }
        assert(a =~= b);
    } else {
        let x = rank(a.last());
        lemma_of_rank_has(a, rank, a.len() - 1);
        assert(of_rank(a, rank, x) == of_rank(b, rank, x));
        lemma_of_rank_last(b, rank, x);
        let y = rank(b.last());
        lemma_of_rank_has(b, rank, b.len() - 1);
        assert(of_rank(a, rank, y) == of_rank(b, rank, y));
        lemma_of_rank_last(a, rank, y);
        assert(x == y);
        assert(a.last() == of_rank(a, rank, x).last());
        assert(b.last() == of_rank(b, rank, x).last());
        assert forall|z: int| #[trigger]
            of_rank(a.drop_last(), rank, z) == of_rank(b.drop_last(), rank, z) by {
            assert(of_rank(a, rank, z) == of_rank(b, rank, z));
            if z == x {
                assert(of_rank(a.drop_last(), rank, z) =~= of_rank(a, rank, z).drop_last());
                assert(of_rank(b.drop_last(), rank, z) =~= of_rank(b, rank, z).drop_last());
            }
        }
        lemma_by_ranks_equal(a.drop_last(), b.drop_last(), rank);
        assert(a =~= a.drop_last().push(a.last()));
        assert(b =~= b.drop_last().push(b.last()));
    }
}

/// The items of `s` in the order of their ranks, those of equal rank in their order in `s`.
pub open spec fn sorted_by<T>(s: Seq<T>, rank: spec_fn(T) -> int) -> Seq<T> {
    choose|r: Seq<T>| stably_sorted(s, r, rank)
}

/// Two lists with the same multiset hold the same items.
pub proof fn lemma_same_items<T>(a: Seq<T>, b: Seq<T>, x: T)
    requires
        a.to_multiset() == b.to_multiset(),
    ensures
        a.contains(x) <==> b.contains(x),
{
    broadcast use vstd::seq_lib::group_to_multiset_ensures;

    assert(a.contains(x) <==> a.to_multiset().count(x) > 0);
    assert(b.contains(x) <==> b.to_multiset().count(x) > 0);
}

} // verus!
