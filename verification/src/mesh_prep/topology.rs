//! Triangle adjacency, and the pairs of particles that edges and hinges connect.
//!
//! Edge `e` of a triangle list is side `e % 3` of triangle `e / 3`: it runs from corner `e` to the
//! next corner of the triangle.

use std::collections::HashSet;

use vstd::prelude::*;

use crate::mesh_prep::sort::{by_rank, lemma_same_items, ranks, stable_sort};

verus! {

/// Marks an edge without a neighbor.
pub const NO_NEIGHBOR: u32 = 0xffff_ffff;

/// The number of edges: three for every whole triangle.
pub open spec fn edge_count(indices: Seq<u32>) -> int {
    3 * (indices.len() as int / 3)
}

/// The corner `j` sides after the one that edge `e` starts from.
pub open spec fn corner(indices: Seq<u32>, e: int, j: int) -> u32 {
    indices[3 * (e / 3) + (e % 3 + j) % 3]
}

pub open spec fn min_of(a: u32, b: u32) -> u32 {
    if a <= b {
        a
    } else {
        b
    }
}

pub open spec fn max_of(a: u32, b: u32) -> u32 {
    if a >= b {
        a
    } else {
        b
    }
}

/// The pair with the smaller index first.
pub open spec fn ordered(a: u32, b: u32) -> (u32, u32) {
    (min_of(a, b), max_of(a, b))
}

/// The two ends of edge `e`, the smaller index first.
pub open spec fn edge_ends(indices: Seq<u32>, e: int) -> (u32, u32) {
    ordered(corner(indices, e, 0), corner(indices, e, 1))
}

/// `v` is the neighbor of edge `e`: the next edge between the same ends, else the one before, else
/// none. Where exactly two triangles share the edge, their edges are neighbors of each other.
pub open spec fn is_neighbor(indices: Seq<u32>, e: int, v: u32) -> bool {
    let ends = edge_ends(indices, e);
    let ne = edge_count(indices);
    let none_after = forall|f: int| e < f < ne ==> #[trigger] edge_ends(indices, f) != ends;
    let none_before = forall|f: int| 0 <= f < e ==> #[trigger] edge_ends(indices, f) != ends;
    if !none_after {
        &&& e < v < ne
        &&& edge_ends(indices, v as int) == ends
        &&& forall|f: int| e < f < v ==> #[trigger] edge_ends(indices, f) != ends
    } else if !none_before {
        &&& v < e
        &&& edge_ends(indices, v as int) == ends
        &&& forall|f: int| v < f < e ==> #[trigger] edge_ends(indices, f) != ends
    } else {
        v == NO_NEIGHBOR
    }
}

/// Every edge has its neighbor in `neighbors`.
pub open spec fn neighbors_right(indices: Seq<u32>, neighbors: Seq<u32>) -> bool {
    &&& neighbors.len() == edge_count(indices)
    &&& forall|e: int|
        0 <= e < edge_count(indices) ==> is_neighbor(indices, e, #[trigger] neighbors[e])
}

fn order_pair(a: u32, b: u32) -> (r: (u32, u32))
    ensures
        r == ordered(a, b),
{
    if a <= b {
        (a, b)
    } else {
        (b, a)
    }
}

fn corner_at(indices: &[u32], e: usize, j: usize) -> (r: u32)
    requires
        e < edge_count(indices@),
        j < 3,
    ensures
        r == corner(indices@, e as int, j as int),
{
    assert(indices.len() == indices@.len());
    indices[3 * (e / 3) + (e % 3 + j) % 3]
}

/// An edge as its ends and its number, ordered by them, the first one deciding first.
type Triple = (u32, u32, u32);

spec fn triple_le(a: Triple, b: Triple) -> bool {
    a.0 < b.0 || a.0 == b.0 && (a.1 < b.1 || a.1 == b.1 && a.2 <= b.2)
}

spec fn triples_sorted(s: Seq<Triple>) -> bool {
    forall|k: int, l: int| 0 <= k <= l < s.len() ==> triple_le(#[trigger] s[k], #[trigger] s[l])
}

spec fn triple_rank(a: Triple) -> int {
    (a.0 * 0x1_0000_0000 + a.1) * 0x1_0000_0000 + a.2
}

fn sort_triples(v: &Vec<Triple>) -> (r: Vec<Triple>)
    ensures
        triples_sorted(r@),
        r@.to_multiset() == v@.to_multiset(),
        r@.len() == v@.len(),
{
    let le = |a: Triple, b: Triple| -> (r: bool)
        ensures
            r == triple_le(a, b),
        { a.0 < b.0 || a.0 == b.0 && (a.1 < b.1 || a.1 == b.1 && a.2 <= b.2) };
    let r = stable_sort(v.as_slice(), &le);
    proof {
        let rank = |a: Triple| triple_rank(a);
        assert(ranks(le, rank, Set::full()));
        assert(by_rank(r@, rank));
        assert forall|k: int, l: int| 0 <= k <= l < r@.len() implies triple_le(
            #[trigger] r@[k],
            #[trigger] r@[l],
        ) by {
            assert(rank(r@[k]) <= rank(r@[l]));
        }
    }
    r
}

/// All edges as triples of their ends and number, sorted.
fn sorted_edges(indices: &[u32]) -> (r: Vec<Triple>)
    requires
        indices@.len() <= u32::MAX,
    ensures
        r@.len() == edge_count(indices@),
        triples_sorted(r@),
        forall|k: int|
            0 <= k < r@.len() ==> (#[trigger] r@[k]).2 < r@.len() && (r@[k].0, r@[k].1)
                == edge_ends(indices@, r@[k].2 as int),
        forall|e: int|
            0 <= e < r@.len() ==> #[trigger] r@.contains(
                (edge_ends(indices@, e).0, edge_ends(indices@, e).1, e as u32),
            ),
        forall|k: int, l: int| 0 <= k < l < r@.len() ==> (#[trigger] r@[k]).2 != (#[trigger] r@[l]).2,
{
    let ne: usize = 3 * (indices.len() / 3);
    let mut edges: Vec<Triple> = Vec::new();
    let mut e: usize = 0;
    while e < ne
        invariant
            ne == edge_count(indices@),
            ne <= u32::MAX,
            e <= ne,
            edges@.len() == e,
            forall|k: int|
                0 <= k < e ==> #[trigger] edges@[k] == (
                    edge_ends(indices@, k).0,
                    edge_ends(indices@, k).1,
                    k as u32,
                ),
        decreases ne - e,
    {
        let (a, b) = order_pair(corner_at(indices, e, 0), corner_at(indices, e, 1));
        edges.push((a, b, e as u32));
        e = e + 1;
    }
    let r = sort_triples(&edges);
    proof {
        assert forall|k: int| 0 <= k < r@.len() implies (#[trigger] r@[k]).2 < r@.len() && (
            r@[k].0,
            r@[k].1,
        ) == edge_ends(indices@, r@[k].2 as int) by {
            lemma_same_items(r@, edges@, r@[k]);
            assert(r@.contains(r@[k]));
        }
        assert forall|f: int| 0 <= f < r@.len() implies #[trigger] r@.contains(
            (edge_ends(indices@, f).0, edge_ends(indices@, f).1, f as u32),
        ) by {
            lemma_same_items(r@, edges@, edges@[f]);
            assert(edges@.contains(edges@[f]));
        }
        lemma_no_duplicates_kept(edges@, r@);
    }
    r
}

/// A list with the items of one without duplicates has none either.
proof fn lemma_no_duplicates_kept(a: Seq<Triple>, r: Seq<Triple>)
    requires
        r.to_multiset() == a.to_multiset(),
        forall|k: int| 0 <= k < a.len() ==> (#[trigger] a[k]).2 == k,
    ensures
        forall|k: int, l: int| 0 <= k < l < r.len() ==> (#[trigger] r[k]).2 != (#[trigger] r[l]).2,
{
    assert(a.no_duplicates());
    a.lemma_multiset_has_no_duplicates();
    assert forall|k: int, l: int| 0 <= k < l < r.len() implies (#[trigger] r[k]).2 != (
    #[trigger] r[l]).2 by {
        r.lemma_multiset_has_no_duplicates_conv();
        lemma_same_items(r, a, r[k]);
        lemma_same_items(r, a, r[l]);
        assert(r.contains(r[k]) && r.contains(r[l]));
    }
}

/// The neighbor of the edge at place `k` of the sorted edges, once the first `i` adjacent pairs of
/// places were compared.
spec fn neighbor_after(edges: Seq<Triple>, k: int, i: int) -> u32 {
    if k < i && edges[k].0 == edges[k + 1].0 && edges[k].1 == edges[k + 1].1 {
        edges[k + 1].2
    } else if 1 <= k <= i && edges[k - 1].0 == edges[k].0 && edges[k - 1].1 == edges[k].1 {
        edges[k - 1].2
    } else {
        NO_NEIGHBOR
    }
}

/// For each edge of the triangles, the edge of another triangle between the same ends.
pub fn find_tri_neighbors(indices: &[u32]) -> (r: Vec<u32>)
    requires
        indices@.len() <= u32::MAX,
    ensures
        neighbors_right(indices@, r@),
{
    let num_tris: usize = indices.len() / 3;
    let edges = sorted_edges(indices);
    let mut neighbors: Vec<u32> = vec![NO_NEIGHBOR; 3 * num_tris];
    let ghost ne = edge_count(indices@);
    let mut i: usize = 0;
    while i + 1 < edges.len()
        invariant
            edges@.len() == ne,
            neighbors@.len() == ne,
            ne <= u32::MAX,
            i == 0 || i < ne,
            forall|k: int| 0 <= k < ne ==> (#[trigger] edges@[k]).2 < ne,
            forall|k: int, l: int|
                0 <= k < l < ne ==> (#[trigger] edges@[k]).2 != (#[trigger] edges@[l]).2,
            forall|k: int|
                0 <= k < ne ==> neighbors@[(#[trigger] edges@[k]).2 as int] == neighbor_after(
                    edges@,
                    k,
                    i as int,
                ),
        decreases edges.len() - i,
    {
        let e0 = edges[i];
        let e1 = edges[i + 1];
        if e0.0 == e1.0 && e0.1 == e1.1 {
            neighbors[e0.2 as usize] = e1.2;
            neighbors[e1.2 as usize] = e0.2;
        }
        i = i + 1;
    }
    proof {
        assert forall|e: int| 0 <= e < ne implies is_neighbor(
            indices@,
            e,
            #[trigger] neighbors@[e],
        ) by {
            let t = (edge_ends(indices@, e).0, edge_ends(indices@, e).1, e as u32);
            assert(edges@.contains(t));
            let k = choose|k: int| 0 <= k < edges@.len() && edges@[k] == t;
            assert(neighbors@[edges@[k].2 as int] == neighbor_after(edges@, k, i as int));
            lemma_neighbor_at_place(indices@, edges@, k);
        }
    }
    neighbors
}

proof fn lemma_neighbor_at_place(indices: Seq<u32>, edges: Seq<Triple>, k: int)
    requires
        edges.len() == edge_count(indices),
        edges.len() <= u32::MAX,
        triples_sorted(edges),
        forall|m: int|
            0 <= m < edges.len() ==> (#[trigger] edges[m]).2 < edges.len() && (
                edges[m].0,
                edges[m].1,
            ) == edge_ends(indices, edges[m].2 as int),
        forall|e: int|
            0 <= e < edges.len() ==> #[trigger] edges.contains(
                (edge_ends(indices, e).0, edge_ends(indices, e).1, e as u32),
            ),
        forall|m: int, l: int|
            0 <= m < l < edges.len() ==> (#[trigger] edges[m]).2 != (#[trigger] edges[l]).2,
        0 <= k < edges.len(),
    ensures
        is_neighbor(
            indices,
            edges[k].2 as int,
            neighbor_after(
                edges,
                k,
                if edges.len() == 0 {
                    0
                } else {
                    edges.len() - 1
                },
            ),
        ),
{
    let ne = edges.len() as int;
    let e = edges[k].2 as int;
    let ends = edge_ends(indices, e);
    let v = neighbor_after(edges, k, ne - 1);
    let next = k + 1 < ne && (edges[k + 1].0, edges[k + 1].1) == ends;
    let prev = k >= 1 && (edges[k - 1].0, edges[k - 1].1) == ends;
    // Any other edge between the same ends stands on its side of place `k`, past its next place.
    assert forall|f: int| 0 <= f < ne && f != e && #[trigger] edge_ends(indices, f) == ends implies {
        &&& f > e ==> next && edges[k + 1].2 <= f
        &&& f < e ==> prev && edges[k - 1].2 >= f
    } by {
        let t = (edge_ends(indices, f).0, edge_ends(indices, f).1, f as u32);
        assert(edges.contains(t));
        let m = choose|m: int| 0 <= m < ne && edges[m] == t;
        if m < k {
            assert(triple_le(edges[m], edges[k]));
            assert(triple_le(edges[m], edges[k - 1]));
            assert(triple_le(edges[k - 1], edges[k]));
        } else {
            assert(m > k);
            assert(triple_le(edges[k], edges[m]));
            assert(triple_le(edges[k], edges[k + 1]));
            assert(triple_le(edges[k + 1], edges[m]));
        }
    }
    if next {
        assert(triple_le(edges[k], edges[k + 1]));
        assert(edge_ends(indices, edges[k + 1].2 as int) == ends);
    }
    if prev {
        assert(triple_le(edges[k - 1], edges[k]));
        assert(edge_ends(indices, edges[k - 1].2 as int) == ends);
    }
}

/// The pair that edge `e` asks to connect by a stretch constraint: its two ends. Of two neighbors
/// only the one that ascends asks.
pub open spec fn stretch_candidate(
    indices: Seq<u32>,
    neighbors: Seq<u32>,
    e: int,
) -> Option<(u32, u32)> {
    if neighbors[e] != NO_NEIGHBOR && corner(indices, e, 0) >= corner(indices, e, 1) {
        None
    } else {
        Some(edge_ends(indices, e))
    }
}

/// The pair that edge `e` asks to connect by a bending constraint: the corners opposite to the edge
/// in its own triangle and in its neighbor's.
pub open spec fn bend_candidate(
    indices: Seq<u32>,
    neighbors: Seq<u32>,
    e: int,
) -> Option<(u32, u32)> {
    if neighbors[e] == NO_NEIGHBOR {
        None
    } else {
        Some(ordered(corner(indices, e, 2), corner(indices, neighbors[e] as int, 2)))
    }
}

/// The different pairs that the first `k` edges ask for, each where it is asked for first.
pub open spec fn distinct_pairs(
    candidate: spec_fn(int) -> Option<(u32, u32)>,
    k: int,
) -> Seq<(u32, u32)>
    decreases k,
{
    if k <= 0 {
        seq![]
    } else {
        let rest = distinct_pairs(candidate, k - 1);
        match candidate(k - 1) {
            Some(p) => if rest.contains(p) {
                rest
            } else {
                rest.push(p)
            },
            None => rest,
        }
    }
}

/// The pairs under stretch constraints, in order.
pub open spec fn stretch_pairs(indices: Seq<u32>, neighbors: Seq<u32>) -> Seq<(u32, u32)> {
    distinct_pairs(|e: int| stretch_candidate(indices, neighbors, e), edge_count(indices))
}

/// The pairs under bending constraints, in order.
pub open spec fn bend_pairs(indices: Seq<u32>, neighbors: Seq<u32>) -> Seq<(u32, u32)> {
    distinct_pairs(|e: int| bend_candidate(indices, neighbors, e), edge_count(indices))
}

/// No pair is listed twice, and a pair is listed exactly where some edge asks for it.
pub proof fn law_distinct_pairs(candidate: spec_fn(int) -> Option<(u32, u32)>, k: int)
    ensures
        distinct_pairs(candidate, k).no_duplicates(),
        distinct_pairs(candidate, k).len() <= if k <= 0 {
            0
        } else {
            k
        },
        forall|p: (u32, u32)| #[trigger]
            distinct_pairs(candidate, k).contains(p) <==> exists|e: int|
                0 <= e < k && #[trigger] candidate(e) == Some(p),
    decreases k,
{
    if k > 0 {
        law_distinct_pairs(candidate, k - 1);
        let rest = distinct_pairs(candidate, k - 1);
        let all = distinct_pairs(candidate, k);
        assert forall|p: (u32, u32)| #[trigger]
            all.contains(p) <==> exists|e: int|
                0 <= e < k && #[trigger] candidate(e) == Some(p) by {
            if all.contains(p) {
                let q = choose|q: int| 0 <= q < all.len() && all[q] == p;
                if q < rest.len() {
                    assert(rest[q] == p);
                    assert(rest.contains(p));
                } else {
                    assert(candidate(k - 1) == Some(p));
                }
            }
            if exists|e: int| 0 <= e < k && #[trigger] candidate(e) == Some(p) {
                let e = choose|e: int| 0 <= e < k && #[trigger] candidate(e) == Some(p);
                if e < k - 1 {
                    assert(rest.contains(p));
                }
                if rest.contains(p) {
                    let q = choose|q: int| 0 <= q < rest.len() && rest[q] == p;
                    assert(all[q] == p);
                } else {
                    assert(all[rest.len() as int] == p);
                }
            }
        }
        assert forall|a: int, b: int|
            0 <= a < all.len() && 0 <= b < all.len() && a != b implies all[a] != all[b] by {
            if a < rest.len() && b < rest.len() {
                assert(rest[a] == all[a] && rest[b] == all[b]);
            } else if a < rest.len() {
                assert(rest.contains(rest[a]));
            } else {
                assert(rest.contains(rest[b]));
            }
        }
    }
}

/// A number that tells pairs apart.
spec fn pair_key(p: (u32, u32)) -> u64 {
    (p.0 * 0x1_0000_0000 + p.1) as u64
}

/// A growing list of pairs without duplicates.
struct PairList {
    seen: HashSet<u64>,
    pairs: Vec<(u32, u32)>,
}

impl PairList {
    spec fn wf(&self) -> bool {
        &&& self.seen@.finite()
        &&& forall|p: (u32, u32)|
            self.pairs@.contains(p) <==> #[trigger] self.seen@.contains(pair_key(p))
    }

    fn new() -> (r: Self)
        ensures
            r.wf(),
            r.pairs@ == Seq::<(u32, u32)>::empty(),
    {
        broadcast use vstd::std_specs::hash::group_hash_axioms;

        PairList { seen: HashSet::new(), pairs: Vec::new() }
    }

    /// Appends `p` unless it is there.
    fn add_new(&mut self, p: (u32, u32))
        requires
            old(self).wf(),
        ensures
            final(self).wf(),
            final(self).pairs@ == if old(self).pairs@.contains(p) {
                old(self).pairs@
            } else {
                old(self).pairs@.push(p)
            },
    {
        broadcast use vstd::std_specs::hash::group_hash_axioms;

        let key: u64 = p.0 as u64 * 0x1_0000_0000 + p.1 as u64;
        let ghost before = self.pairs@;
        let ghost seen_before = self.seen@;
        let fresh = self.seen.insert(key);
        assert(key == pair_key(p));
        if fresh {
            self.pairs.push(p);
        }
        proof {
            assert forall|q: (u32, u32)|
                self.pairs@.contains(q) <==> #[trigger] self.seen@.contains(pair_key(q)) by {
                assert(before.contains(q) <==> seen_before.contains(pair_key(q)));
                assert(before.contains(p) <==> seen_before.contains(pair_key(p)));
                if before.contains(q) {
                    let m = choose|m: int| 0 <= m < before.len() && before[m] == q;
                    assert(self.pairs@[m] == q);
                }
                if fresh {
                    assert(self.pairs@[before.len() as int] == p);
                }
                if self.pairs@.contains(q) && !before.contains(q) {
                    let m = choose|m: int| 0 <= m < self.pairs@.len() && self.pairs@[m] == q;
                    if m < before.len() {
                        assert(before[m] == q);
                    }
                }
            }
        }
    }
}

/// The pairs to connect by stretch constraints.
pub fn unique_edges(indices: &[u32], neighbors: &[u32]) -> (r: Vec<(u32, u32)>)
    requires
        neighbors@.len() == edge_count(indices@),
    ensures
        r@ == stretch_pairs(indices@, neighbors@),
{
    let ne: usize = 3 * (indices.len() / 3);
    let ghost candidate = |e: int| stretch_candidate(indices@, neighbors@, e);
    let mut out = PairList::new();
    let mut e: usize = 0;
    while e < ne
        invariant
            ne == edge_count(indices@),
            neighbors@.len() == ne,
            e <= ne,
            candidate == (|e: int| stretch_candidate(indices@, neighbors@, e)),
            out.wf(),
            out.pairs@ == distinct_pairs(candidate, e as int),
        decreases ne - e,
    {
        let id0: u32 = corner_at(indices, e, 0);
        let id1: u32 = corner_at(indices, e, 1);
        assert(candidate(e as int) == stretch_candidate(indices@, neighbors@, e as int));
        if !(neighbors[e] != NO_NEIGHBOR && id0 >= id1) {
            out.add_new(order_pair(id0, id1));
        }
        e = e + 1;
    }
    out.pairs
}

/// The pairs to connect by bending constraints.
pub fn bending_pairs(indices: &[u32], neighbors: &[u32]) -> (r: Vec<(u32, u32)>)
    requires
        neighbors@.len() == edge_count(indices@),
        forall|e: int|
            0 <= e < neighbors@.len() ==> #[trigger] neighbors@[e] == NO_NEIGHBOR || neighbors@[e]
                < edge_count(indices@),
    ensures
        r@ == bend_pairs(indices@, neighbors@),
{
    let ne: usize = 3 * (indices.len() / 3);
    let ghost candidate = |e: int| bend_candidate(indices@, neighbors@, e);
    let mut out = PairList::new();
    let mut e: usize = 0;
    while e < ne
        invariant
            ne == edge_count(indices@),
            neighbors@.len() == ne,
            forall|e: int|
                0 <= e < neighbors@.len() ==> #[trigger] neighbors@[e] == NO_NEIGHBOR
                    || neighbors@[e] < edge_count(indices@),
            e <= ne,
            candidate == (|e: int| bend_candidate(indices@, neighbors@, e)),
            out.wf(),
            out.pairs@ == distinct_pairs(candidate, e as int),
        decreases ne - e,
    {
        let n: u32 = neighbors[e];
        assert(candidate(e as int) == bend_candidate(indices@, neighbors@, e as int));
        if n != NO_NEIGHBOR {
            let id2: u32 = corner_at(indices, e, 2);
            let id3: u32 = corner_at(indices, n as usize, 2);
            out.add_new(order_pair(id2, id3));
        }
        e = e + 1;
    }
    out.pairs
}

/// The neighbors of all edges.
pub open spec fn neighbors_of(indices: Seq<u32>) -> Seq<u32> {
    choose|neighbors: Seq<u32>| neighbors_right(indices, neighbors)
}

/// The triangles alone decide which edge is whose neighbor.
pub proof fn law_neighbors_unique(indices: Seq<u32>, a: Seq<u32>)
    requires
        neighbors_right(indices, a),
    ensures
        a == neighbors_of(indices),
{
    let b = neighbors_of(indices);
    assert(neighbors_right(indices, b));
    assert forall|e: int| 0 <= e < a.len() implies a[e] == b[e] by {
        let (u, v) = (a[e], b[e]);
        assert(is_neighbor(indices, e, u) && is_neighbor(indices, e, v));
        let ends = edge_ends(indices, e);
        if u != v {
            assert(edge_ends(indices, u as int) == ends);
            assert(edge_ends(indices, v as int) == ends);
        }
    }
    assert(a =~= b);
}

/// A neighbor is another edge between the same ends.
pub proof fn law_neighbor_shares_ends(indices: Seq<u32>, neighbors: Seq<u32>, e: int)
    requires
        neighbors_right(indices, neighbors),
        0 <= e < neighbors.len(),
        neighbors[e] != NO_NEIGHBOR,
    ensures
        neighbors[e] < neighbors.len(),
        neighbors[e] != e,
        edge_ends(indices, neighbors[e] as int) == edge_ends(indices, e),
{
    assert(is_neighbor(indices, e, neighbors[e]));
}

/// Where no third edge runs between the ends of an edge and its neighbor, the two are neighbors of
/// each other.
pub proof fn law_neighbors_mutual(indices: Seq<u32>, neighbors: Seq<u32>, e: int)
    requires
        indices.len() <= u32::MAX,
        neighbors_right(indices, neighbors),
        0 <= e < neighbors.len(),
        neighbors[e] != NO_NEIGHBOR,
        forall|f: int|
            0 <= f < neighbors.len() && #[trigger] edge_ends(indices, f) == edge_ends(indices, e)
                ==> f == e || f == neighbors[e],
    ensures
        neighbors[neighbors[e] as int] == e,
{
    law_neighbor_shares_ends(indices, neighbors, e);
    let f = neighbors[e] as int;
    assert(is_neighbor(indices, f, neighbors[f]));
    assert(edge_ends(indices, e) == edge_ends(indices, f));
    law_neighbor_shares_ends(indices, neighbors, f);
}

/// An edge that stands alone or ascends is under a stretch constraint; so are both edges of two
/// neighbors that run in opposite directions, as they do on a consistently wound mesh.
pub proof fn law_edges_are_stretched(indices: Seq<u32>, neighbors: Seq<u32>, e: int)
    requires
        neighbors_right(indices, neighbors),
        0 <= e < neighbors.len(),
        neighbors[e] != NO_NEIGHBOR ==> {
            ||| corner(indices, e, 0) < corner(indices, e, 1)
            ||| corner(indices, neighbors[e] as int, 0) < corner(indices, neighbors[e] as int, 1)
        },
    ensures
        stretch_pairs(indices, neighbors).contains(edge_ends(indices, e)),
{
    let candidate = |f: int| stretch_candidate(indices, neighbors, f);
    law_distinct_pairs(candidate, edge_count(indices));
    let p = edge_ends(indices, e);
    if neighbors[e] == NO_NEIGHBOR || corner(indices, e, 0) < corner(indices, e, 1) {
        assert(candidate(e) == Some(p));
    } else {
        law_neighbor_shares_ends(indices, neighbors, e);
        assert(candidate(neighbors[e] as int) == Some(p));
    }
}

/// The two corners opposite to an edge that two triangles share are under a bending constraint.
pub proof fn law_hinges_are_bent(indices: Seq<u32>, neighbors: Seq<u32>, e: int)
    requires
        neighbors_right(indices, neighbors),
        0 <= e < neighbors.len(),
        neighbors[e] != NO_NEIGHBOR,
    ensures
        bend_pairs(indices, neighbors).contains(
            ordered(corner(indices, e, 2), corner(indices, neighbors[e] as int, 2)),
        ),
{
    let candidate = |f: int| bend_candidate(indices, neighbors, f);
    law_distinct_pairs(candidate, edge_count(indices));
    assert(candidate(e) == Some(
        ordered(corner(indices, e, 2), corner(indices, neighbors[e] as int, 2)),
    ));
}

/// Every pair that is listed was asked for by an edge.
proof fn lemma_pair_asked(
    candidate: spec_fn(int) -> Option<(u32, u32)>,
    ne: int,
    k: int,
) -> (e: int)
    requires
        0 <= k < distinct_pairs(candidate, ne).len(),
    ensures
        0 <= e < ne,
        candidate(e) == Some(distinct_pairs(candidate, ne)[k]),
{
    law_distinct_pairs(candidate, ne);
    let p = distinct_pairs(candidate, ne)[k];
    assert(distinct_pairs(candidate, ne).contains(p));
    choose|e: int| 0 <= e < ne && #[trigger] candidate(e) == Some(p)
}

/// Every pair under a stretch constraint is the two ends of an edge.
pub proof fn law_stretched_are_edges(indices: Seq<u32>, neighbors: Seq<u32>, k: int) -> (e: int)
    requires
        0 <= k < stretch_pairs(indices, neighbors).len(),
    ensures
        0 <= e < edge_count(indices),
        stretch_pairs(indices, neighbors)[k] == edge_ends(indices, e),
{
    lemma_pair_asked(
        |e: int| stretch_candidate(indices, neighbors, e),
        edge_count(indices),
        k,
    )
}

/// Every pair under a bending constraint is the two corners opposite to an edge that two triangles
/// share.
pub proof fn law_bent_are_hinges(indices: Seq<u32>, neighbors: Seq<u32>, k: int) -> (e: int)
    requires
        0 <= k < bend_pairs(indices, neighbors).len(),
    ensures
        0 <= e < edge_count(indices),
        neighbors[e] != NO_NEIGHBOR,
        bend_pairs(indices, neighbors)[k] == ordered(
            corner(indices, e, 2),
            corner(indices, neighbors[e] as int, 2),
        ),
{
    lemma_pair_asked(|e: int| bend_candidate(indices, neighbors, e), edge_count(indices), k)
}

/// The corners of a triangle in the order of its edges: edge `e` runs from the first to the second, and
/// the third is opposite. The next edge of the triangle starts where this one ends.
pub proof fn law_edges_run_round(indices: Seq<u32>, t: int, s: int)
    requires
        0 <= s < 3,
        0 <= t,
        3 * t + 2 < indices.len(),
    ensures
        corner(indices, 3 * t + s, 0) == indices[3 * t + s],
        corner(indices, 3 * t + s, 1) == corner(indices, 3 * t + (s + 1) % 3, 0),
        corner(indices, 3 * t + s, 2) == corner(indices, 3 * t + (s + 1) % 3, 1),
        corner(indices, 3 * t + s, 2) == corner(indices, 3 * t + (s + 2) % 3, 0),
{
}

/// Both ends of the pairs under stretch constraints are corners of the triangles.
pub proof fn lemma_stretch_pairs_below(indices: Seq<u32>, neighbors: Seq<u32>, n: int)
    requires
        forall|k: int| 0 <= k < indices.len() ==> #[trigger] indices[k] < n,
    ensures
        forall|k: int|
            0 <= k < stretch_pairs(indices, neighbors).len() ==> (#[trigger] stretch_pairs(
                indices,
                neighbors,
            )[k]).0 < n && stretch_pairs(indices, neighbors)[k].1 < n,
        stretch_pairs(indices, neighbors).len() <= edge_count(indices),
{
    let candidate = |f: int| stretch_candidate(indices, neighbors, f);
    law_distinct_pairs(candidate, edge_count(indices));
    let sp = stretch_pairs(indices, neighbors);
    assert forall|k: int| 0 <= k < sp.len() implies (#[trigger] sp[k]).0 < n && sp[k].1 < n by {
        let e = lemma_pair_asked(candidate, edge_count(indices), k);
        assert(indices[3 * (e / 3) + (e % 3 + 0) % 3] < n);
        assert(indices[3 * (e / 3) + (e % 3 + 1) % 3] < n);
    }
}

/// Both ends of the pairs under bending constraints are corners of the triangles.
pub proof fn lemma_bend_pairs_below(indices: Seq<u32>, neighbors: Seq<u32>, n: int)
    requires
        neighbors_right(indices, neighbors),
        forall|k: int| 0 <= k < indices.len() ==> #[trigger] indices[k] < n,
    ensures
        forall|k: int|
            0 <= k < bend_pairs(indices, neighbors).len() ==> (#[trigger] bend_pairs(
                indices,
                neighbors,
            )[k]).0 < n && bend_pairs(indices, neighbors)[k].1 < n,
        bend_pairs(indices, neighbors).len() <= edge_count(indices),
{
    let candidate = |f: int| bend_candidate(indices, neighbors, f);
    law_distinct_pairs(candidate, edge_count(indices));
    let bp = bend_pairs(indices, neighbors);
    assert forall|k: int| 0 <= k < bp.len() implies (#[trigger] bp[k]).0 < n && bp[k].1 < n by {
        let e = lemma_pair_asked(candidate, edge_count(indices), k);
        law_neighbor_shares_ends(indices, neighbors, e);
        let f = neighbors[e] as int;
        assert(indices[3 * (e / 3) + (e % 3 + 2) % 3] < n);
        assert(indices[3 * (f / 3) + (f % 3 + 2) % 3] < n);
    }
}

} // verus!
