//! Colors constraints so that those of one color share no particle.
//!
//! Constraints are visited by descending degree, and each one gets the first color that none of the
//! visited ones at its particles has. The constraints of a color form a batch.

use std::collections::HashSet;

use vstd::prelude::*;

use crate::mesh_prep::neighbors::{degrees, ends_below, half_edges, Constraint};
use crate::mesh_prep::sort::{by_rank, lemma_same_items, ranks, stable_sort};

verus! {

/// Two constraints share a particle.
pub open spec fn share<S>(a: Constraint<S>, b: Constraint<S>) -> bool {
    a.i == b.i || a.i == b.j || a.j == b.i || a.j == b.j
}

/// The number of half-edges of particle `p`.
pub open spec fn degree<S>(rows: Seq<Constraint<S>>, p: u32) -> int {
    half_edges(rows, p as int, 2 * rows.len() as int).len() as int
}

/// The larger degree of the two ends of constraint `e`.
pub open spec fn priority<S>(rows: Seq<Constraint<S>>, e: int) -> int {
    let di = degree(rows, rows[e].i);
    let dj = degree(rows, rows[e].j);
    if di >= dj {
        di
    } else {
        dj
    }
}

/// Constraint `e` is visited before `f`: its priority is higher, or the same and it is listed first.
pub open spec fn visited_before<S>(rows: Seq<Constraint<S>>, e: int, f: int) -> bool {
    priority(rows, e) > priority(rows, f) || priority(rows, e) == priority(rows, f) && e < f
}

/// Place `k` is in batch `b`.
pub open spec fn in_batch(offsets: Seq<u32>, b: int, k: int) -> bool {
    offsets[b] <= k < offsets[b + 1]
}

/// The offsets divide `m` places into batches, none of them empty.
pub open spec fn divides(offsets: Seq<u32>, m: int) -> bool {
    &&& offsets.len() >= 1
    &&& offsets[0] == 0
    &&& offsets[offsets.len() - 1] == m
    &&& forall|a: int, b: int|
        0 <= a < b < offsets.len() ==> #[trigger] offsets[a] < #[trigger] offsets[b]
}

/// `order` lists every number below its length once.
pub open spec fn lists_all(order: Seq<u32>) -> bool {
    &&& forall|k: int| 0 <= k < order.len() ==> #[trigger] order[k] < order.len()
    &&& forall|k: int, l: int| 0 <= k < l < order.len() ==> #[trigger] order[k] != #[trigger] order[l]
    &&& forall|e: u32| e < order.len() ==> #[trigger] order.contains(e)
}

/// Constraint `e` shares a particle with one of batch `b` that is visited before it.
pub open spec fn blocked<S>(
    rows: Seq<Constraint<S>>,
    order: Seq<u32>,
    offsets: Seq<u32>,
    b: int,
    e: int,
) -> bool {
    exists|l: int|
        #![trigger order[l]]
        in_batch(offsets, b, l) && share(rows[order[l] as int], rows[e]) && visited_before(
            rows,
            order[l] as int,
            e,
        )
}

/// Constraint `e` could be in no batch before `b` when it was visited.
pub open spec fn fits_first<S>(
    rows: Seq<Constraint<S>>,
    order: Seq<u32>,
    offsets: Seq<u32>,
    b: int,
    e: int,
) -> bool {
    forall|c: int| 0 <= c < b ==> #[trigger] blocked(rows, order, offsets, c, e)
}

/// `order` lists the constraints batch by batch. Those of a batch share no particle and stand in
/// the order of their visits. Each one is in the first batch that it could be in when visited.
pub open spec fn batches_right<S>(
    rows: Seq<Constraint<S>>,
    order: Seq<u32>,
    offsets: Seq<u32>,
) -> bool {
    &&& order.len() == rows.len()
    &&& lists_all(order)
    &&& divides(offsets, rows.len() as int)
    &&& forall|b: int, k: int, l: int|
        #![trigger in_batch(offsets, b, k), in_batch(offsets, b, l)]
        0 <= b < offsets.len() - 1 && in_batch(offsets, b, k) && in_batch(offsets, b, l) && k < l ==> {
            &&& !share(rows[order[k] as int], rows[order[l] as int])
            &&& visited_before(rows, order[k] as int, order[l] as int)
        }
    &&& forall|b: int, k: int|
        0 <= b < offsets.len() - 1 && #[trigger] in_batch(offsets, b, k) ==> fits_first(
            rows,
            order,
            offsets,
            b,
            order[k] as int,
        )
}

/// The numbers of the constraints, in the order of their visits.
fn visiting_order<S: Copy>(rows: &[Constraint<S>], n: usize) -> (r: Vec<u32>)
    requires
        ends_below(rows@, n as int),
        2 * rows@.len() <= u32::MAX,
    ensures
        r@.len() == rows@.len(),
        lists_all(r@),
        forall|k: int, l: int|
            0 <= k < l < r@.len() ==> visited_before(
                rows@,
                (#[trigger] r@[k]) as int,
                (#[trigger] r@[l]) as int,
            ),
{
    let deg = degrees(n, rows);
    let mut items: Vec<(u32, u32)> = Vec::new();
    let mut e: usize = 0;
    while e < rows.len()
        invariant
            e <= rows@.len(),
            2 * rows@.len() <= u32::MAX,
            ends_below(rows@, n as int),
            deg@.len() == n,
            forall|p: int|
                0 <= p < n ==> #[trigger] deg@[p] == half_edges(
                    rows@,
                    p,
                    2 * rows@.len() as int,
                ).len(),
            items@.len() == e,
            forall|k: int|
                0 <= k < e ==> (#[trigger] items@[k]).0 == priority(rows@, k) && items@[k].1 == k,
        decreases rows@.len() - e,
    {
        let row = rows[e];
        assert(rows@[e as int].i < n && rows@[e as int].j < n);
        let di: u32 = deg[row.i as usize];
        let dj: u32 = deg[row.j as usize];
        let p: u32 = if di >= dj {
            di
        } else {
            dj
        };
        items.push((p, e as u32));
        e = e + 1;
    }
    let le = |a: (u32, u32), b: (u32, u32)| -> (r: bool)
        ensures
            r == (a.0 > b.0 || a.0 == b.0 && a.1 <= b.1),
        { a.0 > b.0 || a.0 == b.0 && a.1 <= b.1 };
    let sorted = stable_sort(items.as_slice(), &le);
    let ghost rank = |a: (u32, u32)| -(a.0 * 0x1_0000_0000) + a.1;
    proof {
        assert(ranks(le, rank, Set::full()));
        assert(by_rank(sorted@, rank));
        lemma_numbered(items@, sorted@);
        assert forall|k: int| 0 <= k < sorted@.len() implies (#[trigger] sorted@[k]).0 == priority(
            rows@,
            sorted@[k].1 as int,
        ) by {
            assert(items@[sorted@[k].1 as int] == sorted@[k]);
        }
    }
    let r = seconds(&sorted);
    proof {
        assert forall|k: int, l: int| 0 <= k < l < r@.len() implies visited_before(
            rows@,
            (#[trigger] r@[k]) as int,
            (#[trigger] r@[l]) as int,
        ) by {
            assert(rank(sorted@[k]) <= rank(sorted@[l]));
        }
    }
    r
}

/// The second component of every pair.
spec fn seconds_of(v: Seq<(u32, u32)>) -> Seq<u32> {
    v.map_values(|p: (u32, u32)| p.1)
}

fn seconds(v: &Vec<(u32, u32)>) -> (r: Vec<u32>)
    ensures
        r@ == seconds_of(v@),
{
    let mut r: Vec<u32> = Vec::new();
    let mut k: usize = 0;
    while k < v.len()
        invariant
            k <= v@.len(),
            r@ == seconds_of(v@).take(k as int),
        decreases v@.len() - k,
    {
        r.push(v[k].1);
        assert(r@ =~= seconds_of(v@).take(k + 1));
        k = k + 1;
    }
    assert(r@ =~= seconds_of(v@));
    r
}

/// Pairs whose second components number them do so after a sort too.
proof fn lemma_numbered(a: Seq<(u32, u32)>, r: Seq<(u32, u32)>)
    requires
        r.to_multiset() == a.to_multiset(),
        r.len() == a.len(),
        a.len() <= u32::MAX,
        forall|k: int| 0 <= k < a.len() ==> (#[trigger] a[k]).1 == k,
    ensures
        lists_all(seconds_of(r)),
        forall|k: int| 0 <= k < r.len() ==> (#[trigger] r[k]).1 < a.len() && a[r[k].1 as int] == r[k],
{
    let s = seconds_of(r);
    assert forall|k: int| 0 <= k < r.len() implies (#[trigger] r[k]).1 < a.len()
        && a[r[k].1 as int] == r[k] by {
        lemma_same_items(r, a, r[k]);
        assert(r.contains(r[k]));
    }
    assert(a.no_duplicates());
    a.lemma_multiset_has_no_duplicates();
    r.lemma_multiset_has_no_duplicates_conv();
    assert forall|k: int, l: int| 0 <= k < l < s.len() implies #[trigger] s[k] != #[trigger] s[l] by {
        assert(a[r[k].1 as int] == r[k] && a[r[l].1 as int] == r[l]);
    }
    assert forall|e: u32| e < s.len() implies #[trigger] s.contains(e) by {
        lemma_same_items(r, a, a[e as int]);
        assert(a.contains(a[e as int]));
        let k = choose|k: int| 0 <= k < r.len() && r[k] == a[e as int];
        assert(s[k] == e);
    }
    assert forall|k: int| 0 <= k < s.len() implies #[trigger] s[k] < s.len() by {
        assert(r[k].1 < a.len());
    }
}

/// A row before place `k` of the visits has color `c` and shares a particle with row `e`.
spec fn color_taken<S>(
    rows: Seq<Constraint<S>>,
    visit: Seq<u32>,
    colors: Seq<u32>,
    c: int,
    k: int,
    e: int,
) -> bool {
    exists|l: int|
        0 <= l < k && #[trigger] colors[l] == c && share(rows[visit[l] as int], rows[e])
}

/// The first `k` visits got the first color free for them, out of `count` colors that are all used.
spec fn colored<S>(
    rows: Seq<Constraint<S>>,
    visit: Seq<u32>,
    colors: Seq<u32>,
    count: int,
    k: int,
) -> bool {
    &&& forall|l: int| 0 <= l < k ==> #[trigger] colors[l] < count
    &&& forall|c: int| 0 <= c < count ==> #[trigger] color_used(colors, c, k)
    &&& forall|l: int, m: int|
        0 <= l < m < k && #[trigger] colors[l] == #[trigger] colors[m] ==> !share(
            rows[visit[l] as int],
            rows[visit[m] as int],
        )
    &&& forall|m: int, c: int|
        0 <= m < k && 0 <= c < colors[m] ==> #[trigger] color_taken(
            rows,
            visit,
            colors,
            c,
            m,
            visit[m] as int,
        )
}

spec fn color_used(colors: Seq<u32>, c: int, k: int) -> bool {
    exists|l: int| 0 <= l < k && #[trigger] colors[l] == c
}

spec fn touches<S>(row: Constraint<S>, p: u32) -> bool {
    row.i == p || row.j == p
}

/// The key of a color at a particle.
spec fn color_key(p: u32, c: u32) -> u64 {
    (p * 0x1_0000_0000 + c) as u64
}

/// `used` holds exactly the colors of the first `k` visits at their particles.
spec fn marks<S>(
    rows: Seq<Constraint<S>>,
    visit: Seq<u32>,
    colors: Seq<u32>,
    k: int,
    used: Set<u64>,
) -> bool {
    forall|p: u32, c: u32| #[trigger]
        used.contains(color_key(p, c)) <==> exists|l: int|
            0 <= l < k && #[trigger] colors[l] == c && touches(rows[visit[l] as int], p)
}

fn key_of(p: u32, c: u32) -> (r: u64)
    ensures
        r == color_key(p, c),
{
    p as u64 * 0x1_0000_0000 + c as u64
}

proof fn lemma_keys_differ(p: u32, c: u32, q: u32, d: u32)
    ensures
        color_key(p, c) == color_key(q, d) <==> p == q && c == d,
{
}

proof fn lemma_marks_grow<S>(
    rows: Seq<Constraint<S>>,
    visit: Seq<u32>,
    colors: Seq<u32>,
    used: Set<u64>,
    c: u32,
)
    requires
        colors.len() < visit.len(),
        marks(rows, visit, colors, colors.len() as int, used),
    ensures
        ({
            let row = rows[visit[colors.len() as int] as int];
            marks(
                rows,
                visit,
                colors.push(c),
                colors.len() as int + 1,
                used.insert(color_key(row.i, c)).insert(color_key(row.j, c)),
            )
        }),
{
    let k = colors.len() as int;
    let row = rows[visit[k] as int];
    let more = colors.push(c);
    let used2 = used.insert(color_key(row.i, c)).insert(color_key(row.j, c));
    assert forall|p: u32, d: u32| #[trigger]
        used2.contains(color_key(p, d)) <==> exists|l: int|
            0 <= l < k + 1 && #[trigger] more[l] == d && touches(rows[visit[l] as int], p) by {
        lemma_keys_differ(p, d, row.i, c);
        lemma_keys_differ(p, d, row.j, c);
        assert(used.contains(color_key(p, d)) <==> exists|l: int|
            0 <= l < k && #[trigger] colors[l] == d && touches(rows[visit[l] as int], p));
        if used.contains(color_key(p, d)) {
            let l = choose|l: int|
                0 <= l < k && #[trigger] colors[l] == d && touches(rows[visit[l] as int], p);
            assert(more[l] == d);
        }
        if d == c && touches(row, p) {
            assert(more[k] == d && touches(rows[visit[k] as int], p));
        }
        if exists|l: int|
            0 <= l < k + 1 && #[trigger] more[l] == d && touches(rows[visit[l] as int], p) {
            let l = choose|l: int|
                0 <= l < k + 1 && #[trigger] more[l] == d && touches(rows[visit[l] as int], p);
            if l < k {
                assert(colors[l] == d);
            }
        }
    }
}

proof fn lemma_colored_grows<S>(
    rows: Seq<Constraint<S>>,
    visit: Seq<u32>,
    colors: Seq<u32>,
    count: int,
    used: Set<u64>,
    c: u32,
)
    requires
        colors.len() < visit.len(),
        colored(rows, visit, colors, count, colors.len() as int),
        marks(rows, visit, colors, colors.len() as int, used),
        c <= count,
        ({
            let row = rows[visit[colors.len() as int] as int];
            &&& !used.contains(color_key(row.i, c))
            &&& !used.contains(color_key(row.j, c))
            &&& forall|d: u32|
                d < c ==> #[trigger] used.contains(color_key(row.i, d)) || used.contains(
                    color_key(row.j, d),
                )
        }),
    ensures
        colored(
            rows,
            visit,
            colors.push(c),
            if c == count {
                count + 1
            } else {
                count
            },
            colors.len() as int + 1,
        ),
{
    let k = colors.len() as int;
    let e = visit[k] as int;
    let row = rows[e];
    let more = colors.push(c);
    let count2 = if c == count {
        count + 1
    } else {
        count
    };
    assert forall|d: int| 0 <= d < count2 implies #[trigger] color_used(more, d, k + 1) by {
        if d < count {
            assert(color_used(colors, d, k));
            let l = choose|l: int| 0 <= l < k && #[trigger] colors[l] == d;
            assert(more[l] == d);
        } else {
            assert(more[k] == d);
        }
    }
    assert forall|l: int, m: int|
        0 <= l < m < k + 1 && #[trigger] more[l] == #[trigger] more[m] implies !share(
        rows[visit[l] as int],
        rows[visit[m] as int],
    ) by {
        assert(more[l] == colors[l]);
        if m < k {
            assert(more[m] == colors[m]);
        } else if share(rows[visit[l] as int], row) {
            assert(colors[l] == c && (touches(rows[visit[l] as int], row.i) || touches(
                rows[visit[l] as int],
                row.j,
            )));
            assert(used.contains(color_key(row.i, c)) || used.contains(color_key(row.j, c)));
        }
    }
    assert forall|m: int, d: int| 0 <= m < k + 1 && 0 <= d < more[m] implies #[trigger] color_taken(
        rows,
        visit,
        more,
        d,
        m,
        visit[m] as int,
    ) by {
        if m < k {
            assert(more[m] == colors[m]);
            assert(color_taken(rows, visit, colors, d, m, visit[m] as int));
            let l = choose|l: int|
                0 <= l < m && #[trigger] colors[l] == d && share(
                    rows[visit[l] as int],
                    rows[visit[m] as int],
                );
            assert(more[l] == d);
        } else {
            let d32 = d as u32;
            assert(used.contains(color_key(row.i, d32)) || used.contains(color_key(row.j, d32)));
            let p = if used.contains(color_key(row.i, d32)) {
                row.i
            } else {
                row.j
            };
            assert(used.contains(color_key(p, d32)));
            let l = choose|l: int|
                0 <= l < k && #[trigger] colors[l] == d32 && touches(rows[visit[l] as int], p);
            assert(more[l] == d);
        }
    }
}

/// Gives each visited row the first color free for it.
fn color_rows<S: Copy>(rows: &[Constraint<S>], visit: &Vec<u32>) -> (r: (Vec<u32>, u32))
    requires
        visit@.len() == rows@.len(),
        rows@.len() < u32::MAX,
        lists_all(visit@),
    ensures
        r.0@.len() == rows@.len(),
        r.1 <= rows@.len(),
        colored(rows@, visit@, r.0@, r.1 as int, rows@.len() as int),
{
    broadcast use vstd::std_specs::hash::group_hash_axioms;

    let mut used: HashSet<u64> = HashSet::new();
    let mut colors: Vec<u32> = Vec::new();
    let mut count: u32 = 0;
    let mut k: usize = 0;
    while k < visit.len()
        invariant
            k <= visit@.len(),
            visit@.len() == rows@.len(),
            rows@.len() < u32::MAX,
            lists_all(visit@),
            colors@.len() == k,
            count <= k,
            colored(rows@, visit@, colors@, count as int, k as int),
            marks(rows@, visit@, colors@, k as int, used@),
        decreases visit@.len() - k,
    {
        broadcast use vstd::std_specs::hash::group_hash_axioms;

        assert(visit@[k as int] < rows@.len());
        let row = rows[visit[k] as usize];
        let mut c: u32 = 0;
        while used.contains(&key_of(row.i, c)) || used.contains(&key_of(row.j, c))
            invariant
                k < visit@.len(),
                c <= count,
                count <= k,
                k < u32::MAX,
                colors@.len() == k,
                colored(rows@, visit@, colors@, count as int, k as int),
                marks(rows@, visit@, colors@, k as int, used@),
                forall|d: u32|
                    d < c ==> #[trigger] used@.contains(color_key(row.i, d)) || used@.contains(
                        color_key(row.j, d),
                    ),
            decreases count - c,
        {
            broadcast use vstd::std_specs::hash::group_hash_axioms;

            proof {
                assert(used@.contains(color_key(row.i, c)) || used@.contains(color_key(row.j, c)));
                let p = if used@.contains(color_key(row.i, c)) {
                    row.i
                } else {
                    row.j
                };
                assert(used@.contains(color_key(p, c)));
                let l = choose|l: int|
                    0 <= l < k && #[trigger] colors@[l] == c && touches(rows@[visit@[l] as int], p);
                assert(colors@[l] < count);
            }
            c = c + 1;
        }
        proof {
            lemma_colored_grows(rows@, visit@, colors@, count as int, used@, c);
            lemma_marks_grow(rows@, visit@, colors@, used@, c);
        }
        used.insert(key_of(row.i, c));
        used.insert(key_of(row.j, c));
        colors.push(c);
        if c == count {
            count = count + 1;
        }
        k = k + 1;
    }
    (colors, count)
}

/// Items with ascending colors, all colors below `count` used.
spec fn grouped(items: Seq<(u32, u32)>, count: int) -> bool {
    &&& forall|k: int, l: int|
        0 <= k <= l < items.len() ==> (#[trigger] items[k]).0 <= (#[trigger] items[l]).0
    &&& forall|k: int| 0 <= k < items.len() ==> (#[trigger] items[k]).0 < count
    &&& forall|c: int| 0 <= c < count ==> #[trigger] occurs(items, c)
}

spec fn occurs(items: Seq<(u32, u32)>, c: int) -> bool {
    exists|k: int| 0 <= k < items.len() && (#[trigger] items[k]).0 == c
}

/// Where each color begins.
fn color_offsets(items: &Vec<(u32, u32)>, count: u32) -> (r: Vec<u32>)
    requires
        grouped(items@, count as int),
        items@.len() < u32::MAX,
        count <= items@.len(),
    ensures
        r@.len() == count + 1,
        divides(r@, items@.len() as int),
        forall|b: int, k: int|
            0 <= b < count && 0 <= k < items@.len() ==> (#[trigger] in_batch(r@, b, k)
                <==> items@[k].0 == b),
{
    let mut r: Vec<u32> = Vec::new();
    r.push(0);
    let mut k: usize = 0;
    let mut c: u32 = 0;
    while c < count
        invariant
            grouped(items@, count as int),
            items@.len() < u32::MAX,
            c <= count,
            k <= items@.len(),
            r@.len() == c + 1,
            r@[0] == 0,
            r@[c as int] == k,
            forall|j: int| 0 <= j < k ==> (#[trigger] items@[j]).0 < c,
            forall|j: int| k <= j < items@.len() ==> (#[trigger] items@[j]).0 >= c,
            forall|a: int, b: int| 0 <= a < b <= c ==> #[trigger] r@[a] < #[trigger] r@[b],
            forall|b: int, j: int|
                0 <= b < c && 0 <= j < items@.len() ==> (#[trigger] in_batch(r@, b, j)
                    <==> items@[j].0 == b),
        decreases count - c,
    {
        let ghost start = k;
        while k < items.len() && items[k].0 == c
            invariant
                start <= k <= items@.len(),
                forall|j: int| start <= j < k ==> (#[trigger] items@[j]).0 == c,
            decreases items@.len() - k,
        {
            k = k + 1;
        }
        let ghost before = r@;
        r.push(k as u32);
        proof {
            assert(occurs(items@, c as int));
            let w = choose|w: int| 0 <= w < items@.len() && (#[trigger] items@[w]).0 == c;
            if w >= k {
                assert(items@[k as int].0 <= items@[w].0);
            }
            assert(start < k);
            assert forall|b: int, j: int| 0 <= b < c + 1 && 0 <= j < items@.len() implies (
            #[trigger] in_batch(r@, b, j) <==> items@[j].0 == b) by {
                if b < c {
                    assert(in_batch(before, b, j) <==> items@[j].0 == b);
                } else {
                    if j >= k {
                        assert(items@[k as int].0 <= items@[j].0);
                    }
                }
            }
            assert forall|j: int| k <= j < items@.len() implies (#[trigger] items@[j]).0 >= c + 1 by {
                assert(items@[k as int].0 <= items@[j].0);
            }
            assert forall|a: int, b: int| 0 <= a < b <= c + 1 implies #[trigger] r@[a]
                < #[trigger] r@[b] by {
                if b == c + 1 && a < c {
                    assert(before[a] < before[c as int]);
                } else if b <= c {
                    assert(before[a] < before[b]);
                }
            }
        }
        c = c + 1;
    }
    proof {
        if k < items@.len() {
            assert(items@[k as int].0 < count);
        }
    }
    r
}

/// The constraints in their batches.
pub struct Batches {
    /// The numbers of the constraints, batch by batch.
    pub order: Vec<u32>,
    /// Batch `b` is at the places `offsets[b] .. offsets[b + 1]` of the order.
    pub offsets: Vec<u32>,
}

proof fn lemma_batches_right<S>(
    rows: Seq<Constraint<S>>,
    visit: Seq<u32>,
    colors: Seq<u32>,
    count: int,
    items: Seq<(u32, u32)>,
    order: Seq<u32>,
    offsets: Seq<u32>,
)
    requires
        rows.len() < u32::MAX,
        visit.len() == rows.len(),
        colors.len() == rows.len(),
        items.len() == rows.len(),
        order.len() == rows.len(),
        offsets.len() == count + 1,
        count >= 0,
        lists_all(visit),
        forall|k: int, l: int|
            0 <= k < l < visit.len() ==> visited_before(
                rows,
                (#[trigger] visit[k]) as int,
                (#[trigger] visit[l]) as int,
            ),
        colored(rows, visit, colors, count, rows.len() as int),
        lists_all(seconds_of(items)),
        forall|k: int|
            0 <= k < items.len() ==> (#[trigger] items[k]).1 < rows.len() && items[k].0
                == colors[items[k].1 as int],
        forall|k: int, l: int|
            0 <= k < l < items.len() && (#[trigger] items[k]).0 == (#[trigger] items[l]).0
                ==> items[k].1 < items[l].1,
        forall|k: int| 0 <= k < order.len() ==> #[trigger] order[k] == visit[items[k].1 as int],
        divides(offsets, rows.len() as int),
        forall|b: int, k: int|
            0 <= b < count && 0 <= k < items.len() ==> (#[trigger] in_batch(offsets, b, k)
                <==> items[k].0 == b),
    ensures
        batches_right(rows, order, offsets),
{
    let m = rows.len() as int;
    let places = seconds_of(items);
    assert forall|k: int| 0 <= k < m implies #[trigger] places[k] == items[k].1 by {}
    assert forall|k: int| 0 <= k < m implies #[trigger] order[k] < m by {
        assert(visit[items[k].1 as int] < m);
    }
    assert forall|k: int, l: int| 0 <= k < l < m implies #[trigger] order[k] != #[trigger] order[l] by {
        assert(places[k] != places[l]);
        assert(items[k].1 < m && items[l].1 < m);
    }
    assert forall|e: u32| e < m implies #[trigger] order.contains(e) by {
        assert(visit.contains(e));
        let l = choose|l: int| 0 <= l < visit.len() && visit[l] == e;
        assert(places.contains(l as u32));
        let k = choose|k: int| 0 <= k < places.len() && places[k] == l as u32;
        assert(order[k] == e);
    }
    assert forall|b: int, k: int| 0 <= b < count && #[trigger] in_batch(offsets, b, k) implies 0 <= k
        < m by {
        if b + 1 < count {
            assert(offsets[b + 1] < offsets[count]);
        }
    }
    assert forall|b: int, k: int, l: int|
        #![trigger in_batch(offsets, b, k), in_batch(offsets, b, l)]
        0 <= b < count && in_batch(offsets, b, k) && in_batch(offsets, b, l) && k < l implies {
        &&& !share(rows[order[k] as int], rows[order[l] as int])
        &&& visited_before(rows, order[k] as int, order[l] as int)
    } by {
        assert(items[k].0 == items[l].0);
        let (x, y) = (items[k].1 as int, items[l].1 as int);
        assert(x < y);
        assert(colors[x] == colors[y]);
        assert(order[k] == visit[x] && order[l] == visit[y]);
    }
    assert forall|b: int, k: int| 0 <= b < count && #[trigger] in_batch(
        offsets,
        b,
        k,
    ) implies fits_first(rows, order, offsets, b, order[k] as int) by {
        let y = items[k].1 as int;
        assert(order[k] == visit[y]);
        assert forall|c: int| 0 <= c < b implies #[trigger] blocked(
            rows,
            order,
            offsets,
            c,
            order[k] as int,
        ) by {
            assert(color_taken(rows, visit, colors, c, y, visit[y] as int));
            let x = choose|x: int|
                0 <= x < y && #[trigger] colors[x] == c && share(
                    rows[visit[x] as int],
                    rows[visit[y] as int],
                );
            assert(places.contains(x as u32));
            let l = choose|l: int| 0 <= l < places.len() && places[l] == x as u32;
            assert(items[l].0 == colors[x]);
            assert(in_batch(offsets, c, l));
            assert(order[l] == visit[x]);
        }
    }
}

/// Divides the constraints into batches of which none holds two that share a particle.
pub fn partition_constraints_for_gs_batches<S: Copy>(
    rows: &[Constraint<S>],
    n: usize,
) -> (r: Batches)
    requires
        ends_below(rows@, n as int),
        2 * rows@.len() <= u32::MAX,
    ensures
        batches_right(rows@, r.order@, r.offsets@),
{
    let visit = visiting_order(rows, n);
    let (colors, count) = color_rows(rows, &visit);
    let mut items: Vec<(u32, u32)> = Vec::new();
    let mut k: usize = 0;
    while k < colors.len()
        invariant
            k <= colors@.len(),
            colors@.len() <= u32::MAX,
            items@.len() == k,
            forall|l: int| 0 <= l < k ==> #[trigger] items@[l] == (colors@[l], l as u32),
        decreases colors@.len() - k,
    {
        items.push((colors[k], k as u32));
        k = k + 1;
    }
    let le = |a: (u32, u32), b: (u32, u32)| -> (r: bool)
        ensures
            r == (a.0 < b.0 || a.0 == b.0 && a.1 <= b.1),
        { a.0 < b.0 || a.0 == b.0 && a.1 <= b.1 };
    let sorted = stable_sort(items.as_slice(), &le);
    proof {
        let rank = |a: (u32, u32)| a.0 * 0x1_0000_0000 + a.1;
        assert(ranks(le, rank, Set::full()));
        assert(by_rank(sorted@, rank));
        lemma_numbered(items@, sorted@);
        assert forall|k: int, l: int| 0 <= k <= l < sorted@.len() implies (#[trigger] sorted@[k]).0
            <= (#[trigger] sorted@[l]).0 by {
            assert(rank(sorted@[k]) <= rank(sorted@[l]));
        }
        assert forall|k: int, l: int|
            0 <= k < l < sorted@.len() && (#[trigger] sorted@[k]).0 == (
            #[trigger] sorted@[l]).0 implies sorted@[k].1 < sorted@[l].1 by {
            assert(rank(sorted@[k]) <= rank(sorted@[l]));
            assert(seconds_of(sorted@)[k] != seconds_of(sorted@)[l]);
        }
        assert forall|k: int| 0 <= k < sorted@.len() implies (#[trigger] sorted@[k]).1 < rows@.len()
            && sorted@[k].0 == colors@[sorted@[k].1 as int] by {
            assert(items@[sorted@[k].1 as int] == sorted@[k]);
        }
        assert forall|c: int| 0 <= c < count implies #[trigger] occurs(sorted@, c) by {
            assert(color_used(colors@, c, colors@.len() as int));
            let l = choose|l: int| 0 <= l < colors@.len() && #[trigger] colors@[l] == c;
            assert(seconds_of(sorted@).contains(l as u32));
            let k = choose|k: int|
                0 <= k < seconds_of(sorted@).len() && seconds_of(sorted@)[k] == l as u32;
            assert(sorted@[k].0 == c);
        }
    }
    let offsets = color_offsets(&sorted, count);
    let mut order: Vec<u32> = Vec::new();
    let mut k: usize = 0;
    while k < sorted.len()
        invariant
            k <= sorted@.len(),
            visit@.len() == sorted@.len(),
            forall|k: int| 0 <= k < sorted@.len() ==> (#[trigger] sorted@[k]).1 < visit@.len(),
            order@.len() == k,
            forall|l: int| 0 <= l < k ==> #[trigger] order@[l] == visit@[sorted@[l].1 as int],
        decreases sorted@.len() - k,
    {
        order.push(visit[sorted[k].1 as usize]);
        k = k + 1;
    }
    proof {
        lemma_batches_right(
            rows@,
            visit@,
            colors@,
            count as int,
            sorted@,
            order@,
            offsets@,
        );
    }
    Batches { order, offsets }
}

} // verus!
