//! Constraint lists by particle, as contiguous slices of flat tables.
//!
//! A constraint has two half-edges: number `2 * e` belongs to the first end of constraint `e`,
//! number `2 * e + 1` to the second.

use vstd::prelude::*;

verus! {

/// A distance constraint between particles `i` and `j`.
#[derive(Clone, Copy)]
pub struct Constraint<S> {
    pub i: u32,
    pub j: u32,
    pub rest: S,
    pub compliance: S,
}

/// The constraints of each particle: those of particle `p` are the entries
/// `offsets[p] .. offsets[p + 1]` of the other tables.
pub struct NeighborLists<S> {
    pub offsets: Vec<u32>,
    pub other: Vec<u32>,
    pub rest_len: Vec<S>,
    pub compliance: Vec<S>,
    pub constraint_id: Vec<u32>,
}

/// The particle that half-edge `h` belongs to.
pub open spec fn half_owner<S>(rows: Seq<Constraint<S>>, h: int) -> u32 {
    if h % 2 == 0 {
        rows[h / 2].i
    } else {
        rows[h / 2].j
    }
}

/// The particle at the other end of half-edge `h`.
pub open spec fn half_other<S>(rows: Seq<Constraint<S>>, h: int) -> u32 {
    if h % 2 == 0 {
        rows[h / 2].j
    } else {
        rows[h / 2].i
    }
}

/// The half-edges of particle `p` among the first `h`, in ascending order.
pub open spec fn half_edges<S>(rows: Seq<Constraint<S>>, p: int, h: int) -> Seq<int>
    decreases h,
{
    if h <= 0 {
        seq![]
    } else if half_owner(rows, h - 1) == p {
        half_edges(rows, p, h - 1).push(h - 1)
    } else {
        half_edges(rows, p, h - 1)
    }
}

/// How many of the first `h` half-edges belong to the particles below `p`.
pub open spec fn half_edges_below<S>(rows: Seq<Constraint<S>>, p: int, h: int) -> int
    decreases p,
{
    if p <= 0 {
        0
    } else {
        half_edges_below(rows, p - 1, h) + half_edges(rows, p - 1, h).len()
    }
}

/// Both ends of every constraint are particles below `n`.
pub open spec fn ends_below<S>(rows: Seq<Constraint<S>>, n: int) -> bool {
    forall|e: int| 0 <= e < rows.len() ==> (#[trigger] rows[e]).i < n && rows[e].j < n
}

/// The tables list exactly the half-edges of every particle, in ascending order.
pub open spec fn lists_right<S>(
    rows: Seq<Constraint<S>>,
    n: int,
    offsets: Seq<u32>,
    other: Seq<u32>,
    rest_len: Seq<S>,
    compliance: Seq<S>,
    constraint_id: Seq<u32>,
) -> bool {
    let hs = 2 * rows.len();
    &&& offsets.len() == n + 1
    &&& other.len() == hs
    &&& rest_len.len() == hs
    &&& compliance.len() == hs
    &&& constraint_id.len() == hs
    &&& forall|p: int|
        0 <= p <= n ==> #[trigger] offsets[p] == half_edges_below(rows, p, hs as int)
    &&& forall|p: int, q: int|
        0 <= p < n && 0 <= q < half_edges(rows, p, hs as int).len() ==> {
            let h = #[trigger] half_edges(rows, p, hs as int)[q];
            let k = half_edges_below(rows, p, hs as int) + q;
            &&& other[k] == half_other(rows, h)
            &&& rest_len[k] == rows[h / 2].rest
            &&& compliance[k] == rows[h / 2].compliance
            &&& constraint_id[k] == h / 2
        }
}

pub proof fn lemma_half_edges<S>(rows: Seq<Constraint<S>>, p: int, h: int)
    ensures
        half_edges(rows, p, h).len() <= if h <= 0 {
            0
        } else {
            h
        },
        forall|q: int|
            0 <= q < half_edges(rows, p, h).len() ==> 0 <= #[trigger] half_edges(rows, p, h)[q] < h
                && half_owner(rows, half_edges(rows, p, h)[q]) == p,
    decreases h,
{
    if h > 0 {
        lemma_half_edges(rows, p, h - 1);
    }
}

proof fn lemma_half_edges_grow<S>(rows: Seq<Constraint<S>>, p: int, h: int, g: int)
    requires
        h <= g,
    ensures
        half_edges(rows, p, h).len() <= half_edges(rows, p, g).len(),
        half_edges(rows, p, h) == half_edges(rows, p, g).take(half_edges(rows, p, h).len() as int),
    decreases g,
{
    if h < g {
        if g > 0 {
            lemma_half_edges_grow(rows, p, h, g - 1);
            assert(half_edges(rows, p, h) =~= half_edges(rows, p, g).take(
                half_edges(rows, p, h).len() as int,
            ));
        } else {
            assert(half_edges(rows, p, h) =~= half_edges(rows, p, g).take(0));
        }
    } else {
        assert(half_edges(rows, p, h) =~= half_edges(rows, p, g).take(
            half_edges(rows, p, h).len() as int,
        ));
    }
}

pub proof fn lemma_below_grows<S>(rows: Seq<Constraint<S>>, p: int, q: int, h: int)
    requires
        0 <= p <= q,
    ensures
        0 <= half_edges_below(rows, p, h) <= half_edges_below(rows, q, h),
        p < q ==> half_edges_below(rows, p, h) + half_edges(rows, p, h).len() <= half_edges_below(
            rows,
            q,
            h,
        ),
    decreases q,
{
    if q > 0 {
        if p < q {
            lemma_below_grows(rows, p, q - 1, h);
        } else {
            lemma_below_grows(rows, p - 1, q - 1, h);
        }
    }
}

proof fn lemma_below_step<S>(rows: Seq<Constraint<S>>, p: int, h: int)
    requires
        0 <= p,
        0 < h,
    ensures
        half_edges_below(rows, p, h) == half_edges_below(rows, p, h - 1) + if half_owner(
            rows,
            h - 1,
        ) < p {
            1int
        } else {
            0
        },
    decreases p,
{
    if p > 0 {
        lemma_below_step(rows, p - 1, h);
    }
}

pub proof fn lemma_below_all<S>(rows: Seq<Constraint<S>>, n: int, h: int)
    requires
        0 <= n,
        0 <= h <= 2 * rows.len(),
        ends_below(rows, n),
    ensures
        half_edges_below(rows, n, h) == h,
    decreases h,
{
    if h > 0 {
        lemma_below_all(rows, n, h - 1);
        lemma_below_step(rows, n, h);
        assert(rows[(h - 1) / 2].i < n && rows[(h - 1) / 2].j < n);
    } else {
        lemma_below_zero(rows, n);
    }
}

proof fn lemma_below_zero<S>(rows: Seq<Constraint<S>>, p: int)
    ensures
        half_edges_below(rows, p, 0) == 0,
    decreases p,
{
    if p > 0 {
        lemma_below_zero(rows, p - 1);
    }
}

/// A table of `n` copies of `x`.
pub fn filled<T: Copy>(x: T, n: usize) -> (r: Vec<T>)
    ensures
        r@ == Seq::new(n as nat, |k: int| x),
{
    let mut r: Vec<T> = Vec::new();
    let mut k: usize = 0;
    while k < n
        invariant
            k <= n,
            r@ == Seq::new(k as nat, |k: int| x),
        decreases n - k,
    {
        r.push(x);
        assert(r@ =~= Seq::new((k + 1) as nat, |k: int| x));
        k = k + 1;
    }
    r
}

fn owner_of<S: Copy>(rows: &[Constraint<S>], h: usize) -> (r: u32)
    requires
        h < 2 * rows@.len(),
    ensures
        r == half_owner(rows@, h as int),
{
    let row = rows[h / 2];
    if h % 2 == 0 {
        row.i
    } else {
        row.j
    }
}

fn other_of<S: Copy>(rows: &[Constraint<S>], h: usize) -> (r: u32)
    requires
        h < 2 * rows@.len(),
    ensures
        r == half_other(rows@, h as int),
{
    let row = rows[h / 2];
    if h % 2 == 0 {
        row.j
    } else {
        row.i
    }
}

/// The number of half-edges of each particle.
pub fn degrees<S: Copy>(n: usize, rows: &[Constraint<S>]) -> (counts: Vec<u32>)
    requires
        ends_below(rows@, n as int),
        2 * rows@.len() <= u32::MAX,
    ensures
        counts@.len() == n,
        forall|p: int|
            0 <= p < n ==> #[trigger] counts@[p] == half_edges(
                rows@,
                p,
                2 * rows@.len() as int,
            ).len(),
{
    let hs: usize = 2 * rows.len();
    let mut counts: Vec<u32> = filled(0u32, n);
    let mut h: usize = 0;
    while h < hs
        invariant
            h <= hs,
            hs == 2 * rows@.len(),
            hs <= u32::MAX,
            ends_below(rows@, n as int),
            counts@.len() == n,
            forall|p: int|
                0 <= p < n ==> #[trigger] counts@[p] == half_edges(rows@, p, h as int).len(),
        decreases hs - h,
    {
        let p: usize = owner_of(rows, h) as usize;
        proof {
            assert(rows@[h as int / 2].i < n && rows@[h as int / 2].j < n);
            lemma_half_edges(rows@, p as int, h as int);
        }
        counts[p] = counts[p] + 1;
        h = h + 1;
    }
    counts
}

/// Where the half-edges of each particle begin.
fn slice_offsets<S: Copy>(n: usize, rows: &[Constraint<S>]) -> (offsets: Vec<u32>)
    requires
        ends_below(rows@, n as int),
        2 * rows@.len() <= u32::MAX,
        n < usize::MAX,
    ensures
        offsets@.len() == n + 1,
        forall|p: int|
            0 <= p <= n ==> #[trigger] offsets@[p] == half_edges_below(
                rows@,
                p,
                2 * rows@.len() as int,
            ),
{
    let hs: usize = 2 * rows.len();
    let counts = degrees(n, rows);
    let mut offsets: Vec<u32> = Vec::new();
    offsets.push(0);
    let mut p: usize = 0;
    while p < n
        invariant
            p <= n,
            hs == 2 * rows@.len(),
            hs <= u32::MAX,
            ends_below(rows@, n as int),
            counts@.len() == n,
            forall|p: int|
                0 <= p < n ==> #[trigger] counts@[p] == half_edges(rows@, p, hs as int).len(),
            offsets@.len() == p + 1,
            forall|q: int|
                0 <= q <= p ==> #[trigger] offsets@[q] == half_edges_below(rows@, q, hs as int),
        decreases n - p,
    {
        proof {
            lemma_below_all(rows@, n as int, hs as int);
            lemma_below_grows(rows@, p + 1, n as int, hs as int);
        }
        let next: u32 = offsets[p] + counts[p];
        offsets.push(next);
        p = p + 1;
    }
    offsets
}

/// Scatters the half-edges into the contiguous slice of the particle that each belongs to.
pub fn neighbor_lists<S: Copy>(n: usize, rows: &[Constraint<S>], zero: S) -> (r: NeighborLists<S>)
    requires
        ends_below(rows@, n as int),
        2 * rows@.len() <= u32::MAX,
        n < usize::MAX,
    ensures
        lists_right(
            rows@,
            n as int,
            r.offsets@,
            r.other@,
            r.rest_len@,
            r.compliance@,
            r.constraint_id@,
        ),
{
    let hs: usize = 2 * rows.len();
    let offsets = slice_offsets(n, rows);
    let mut other: Vec<u32> = filled(0u32, hs);
    let mut rest_len: Vec<S> = filled(zero, hs);
    let mut compliance: Vec<S> = filled(zero, hs);
    let mut constraint_id: Vec<u32> = filled(0u32, hs);
    let mut cursors: Vec<u32> = Vec::new();
    let mut p: usize = 0;
    while p < n
        invariant
            p <= n,
            offsets@.len() == n + 1,
            cursors@ == offsets@.take(p as int),
        decreases n - p,
    {
        cursors.push(offsets[p]);
        assert(cursors@ =~= offsets@.take(p + 1));
        p = p + 1;
    }
    let mut h: usize = 0;
    while h < hs
        invariant
            h <= hs,
            hs == 2 * rows@.len(),
            hs <= u32::MAX,
            ends_below(rows@, n as int),
            offsets@.len() == n + 1,
            cursors@.len() == n,
            other@.len() == hs,
            rest_len@.len() == hs,
            compliance@.len() == hs,
            constraint_id@.len() == hs,
            forall|p: int|
                0 <= p <= n ==> #[trigger] offsets@[p] == half_edges_below(rows@, p, hs as int),
            forall|p: int|
                0 <= p < n ==> #[trigger] cursors@[p] == half_edges_below(rows@, p, hs as int)
                    + half_edges(rows@, p, h as int).len(),
            forall|p: int, q: int|
                0 <= p < n && 0 <= q < half_edges(rows@, p, h as int).len() ==> {
                    let g = #[trigger] half_edges(rows@, p, h as int)[q];
                    let k = half_edges_below(rows@, p, hs as int) + q;
                    &&& other@[k] == half_other(rows@, g)
                    &&& rest_len@[k] == rows@[g / 2].rest
                    &&& compliance@[k] == rows@[g / 2].compliance
                    &&& constraint_id@[k] == g / 2
                },
        decreases hs - h,
    {
        let owner: usize = owner_of(rows, h) as usize;
        let row = rows[h / 2];
        proof {
            assert(rows@[h as int / 2].i < n && rows@[h as int / 2].j < n);
            lemma_below_all(rows@, n as int, hs as int);
            lemma_half_edges_grow(rows@, owner as int, h + 1, hs as int);
            lemma_below_grows(rows@, owner as int, n as int, hs as int);
            assert(half_edges(rows@, owner as int, h + 1).len() == half_edges(
                rows@,
                owner as int,
                h as int,
            ).len() + 1);
        }
        let slot: usize = cursors[owner] as usize;
        let ghost other0 = other@;
        let ghost rest0 = rest_len@;
        let ghost comp0 = compliance@;
        let ghost id0 = constraint_id@;
        other[slot] = other_of(rows, h);
        rest_len[slot] = row.rest;
        compliance[slot] = row.compliance;
        constraint_id[slot] = (h / 2) as u32;
        cursors[owner] = cursors[owner] + 1;
        proof {
            assert forall|p: int, q: int|
                0 <= p < n && 0 <= q < half_edges(rows@, p, h + 1).len() implies {
                let g = #[trigger] half_edges(rows@, p, h + 1)[q];
                let k = half_edges_below(rows@, p, hs as int) + q;
                &&& other@[k] == half_other(rows@, g)
                &&& rest_len@[k] == rows@[g / 2].rest
                &&& compliance@[k] == rows@[g / 2].compliance
                &&& constraint_id@[k] == g / 2
            } by {
                let k = half_edges_below(rows@, p, hs as int) + q;
                lemma_half_edges_grow(rows@, p, h + 1, hs as int);
                if p < owner {
                    lemma_below_grows(rows@, p, owner as int, hs as int);
                } else if p > owner {
                    lemma_below_grows(rows@, owner as int, p, hs as int);
                }
                if p != owner || q < half_edges(rows@, p, h as int).len() {
                    assert(half_edges(rows@, p, h + 1)[q] == half_edges(rows@, p, h as int)[q]);
                    assert(k != slot);
                    lemma_below_grows(rows@, p, n as int, hs as int);
                } else {
                    assert(k == slot);
                }
            }
        }
        h = h + 1;
    }
    NeighborLists { offsets, other, rest_len, compliance, constraint_id }
}

} // verus!
