//! What holds of every finished mesh.

use vstd::prelude::*;

use crate::mesh_prep::batches::{
    batches_right, blocked, divides, fits_first, in_batch, priority, share, visited_before,
};
use crate::mesh_prep::braces::{
    cross_pairs, grid_indices, law_grid_pairs_below, lemma_quad_corner, quad_corner,
    quad_triangle_corner, skip_two_pairs,
};
use crate::mesh_prep::cloth_mesh::{mesh_values, reordered, ClothMeshData, Compliances};
use crate::mesh_prep::grid_fit::{fills_grid, fitted_pairs, particle_at, slot};
use crate::mesh_prep::mass::is_pinned;
use crate::mesh_prep::neighbors::{
    half_edges, half_edges_below, half_other, half_owner, lemma_below_all, lemma_below_grows,
    lemma_half_edges, Constraint,
};
use crate::mesh_prep::ops::MeshModel;
use crate::mesh_prep::topology::{edge_count, edge_ends};

verus! {

/// The slice of a particle lists constraints of that particle: the one with the listed number
/// connects it to the listed other end, with the listed rest length and compliance.
pub proof fn law_slices_match_constraints<S>(mesh: ClothMeshData<S>, p: int, k: int)
    requires
        mesh.wf(),
        0 <= p < mesh.num_particles,
        mesh.neighbor_offsets@[p] <= k < mesh.neighbor_offsets@[p + 1],
    ensures
        0 <= k < mesh.neighbor_other@.len(),
        mesh.neighbor_other@[k] < mesh.num_particles,
        mesh.neighbor_constraint_id@[k] < mesh.num_distance_constraints,
        ({
            let row = mesh.rows()[mesh.neighbor_constraint_id@[k] as int];
            &&& {
                ||| row.i == p && row.j == mesh.neighbor_other@[k]
                ||| row.j == p && row.i == mesh.neighbor_other@[k]
            }
            &&& row.rest == mesh.neighbor_rest_len@[k]
            &&& row.compliance == mesh.neighbor_compliance@[k]
        }),
{
    let rows = mesh.rows();
    let n = mesh.positions@.len() as int;
    let hs = 2 * rows.len() as int;
    lemma_below_all(rows, n, hs);
    lemma_below_grows(rows, p + 1, n, hs);
    lemma_half_edges(rows, p, hs);
    assert(mesh.neighbor_offsets@[p] == half_edges_below(rows, p, hs));
    assert(mesh.neighbor_offsets@[p + 1] == half_edges_below(rows, p + 1, hs));
    let q = k - half_edges_below(rows, p, hs);
    let h = half_edges(rows, p, hs)[q];
    assert(mesh.neighbor_other@[k] == half_other(rows, h));
    assert(rows[h / 2].i < n && rows[h / 2].j < n);
}

/// Every entry below the last offset is in some slice.
pub proof fn law_slices_cover(offsets: Seq<u32>, n: int, k: int) -> (p: int)
    requires
        0 <= n,
        offsets.len() == n + 1,
        offsets[0] == 0,
        0 <= k < offsets[n],
    ensures
        0 <= p < n,
        offsets[p] <= k < offsets[p + 1],
    decreases n,
{
    if k >= offsets[n - 1] {
        n - 1
    } else {
        law_slices_cover(offsets.take(n), n - 1, k)
    }
}

/// Every listed other end is a particle, and every corner of a triangle is one.
pub proof fn law_indices_in_range<S>(mesh: ClothMeshData<S>)
    requires
        mesh.wf(),
    ensures
        forall|k: int|
            0 <= k < mesh.neighbor_other@.len() ==> #[trigger] mesh.neighbor_other@[k]
                < mesh.num_particles,
        forall|k: int|
            0 <= k < mesh.indices@.len() ==> #[trigger] mesh.indices@[k] < mesh.num_particles,
{
    let rows = mesh.rows();
    let n = mesh.positions@.len() as int;
    let hs = 2 * rows.len() as int;
    lemma_below_all(rows, n, hs);
    assert(mesh.neighbor_offsets@[n] == half_edges_below(rows, n, hs));
    assert(mesh.neighbor_offsets@[0] == half_edges_below(rows, 0, hs));
    assert forall|k: int| 0 <= k < mesh.neighbor_other@.len() implies #[trigger]
        mesh.neighbor_other@[k] < mesh.num_particles by {
        let p = law_slices_cover(mesh.neighbor_offsets@, n, k);
        law_slices_match_constraints(mesh, p, k);
    }
}

proof fn lemma_half_edge_listed<S>(rows: Seq<Constraint<S>>, h: int, hs: int) -> (q: int)
    requires
        0 <= h < hs,
    ensures
        0 <= q < half_edges(rows, half_owner(rows, h) as int, hs).len(),
        half_edges(rows, half_owner(rows, h) as int, hs)[q] == h,
    decreases hs,
{
    let p = half_owner(rows, h) as int;
    if h == hs - 1 {
        half_edges(rows, p, hs).len() - 1
    } else {
        lemma_half_edge_listed(rows, h, hs - 1)
    }
}

/// Every constraint is listed in the slice of its first end, with the second as the other end, and
/// in the slice of its second end, with the first as the other end.
pub proof fn law_constraint_in_both_slices<S>(mesh: ClothMeshData<S>, e: int) -> (r: (int, int))
    requires
        mesh.wf(),
        0 <= e < mesh.num_distance_constraints,
    ensures
        mesh.neighbor_offsets@[mesh.constraint_i@[e] as int] <= r.0
            < mesh.neighbor_offsets@[mesh.constraint_i@[e] + 1],
        mesh.neighbor_constraint_id@[r.0] == e,
        mesh.neighbor_other@[r.0] == mesh.constraint_j@[e],
        mesh.neighbor_offsets@[mesh.constraint_j@[e] as int] <= r.1
            < mesh.neighbor_offsets@[mesh.constraint_j@[e] + 1],
        mesh.neighbor_constraint_id@[r.1] == e,
        mesh.neighbor_other@[r.1] == mesh.constraint_i@[e],
        r.0 != r.1,
{
    let rows = mesh.rows();
    let n = mesh.positions@.len() as int;
    let hs = 2 * rows.len() as int;
    let (i, j) = (rows[e].i as int, rows[e].j as int);
    assert(rows[e].i < n && rows[e].j < n);
    assert((2 * e) % 2 == 0 && (2 * e) / 2 == e && (2 * e + 1) % 2 == 1 && (2 * e + 1) / 2 == e);
    let qi = lemma_half_edge_listed(rows, 2 * e, hs);
    let qj = lemma_half_edge_listed(rows, 2 * e + 1, hs);
    assert(half_edges(rows, i, hs)[qi] == 2 * e);
    assert(half_edges(rows, j, hs)[qj] == 2 * e + 1);
    assert(mesh.neighbor_offsets@[i] == half_edges_below(rows, i, hs));
    assert(mesh.neighbor_offsets@[i + 1] == half_edges_below(rows, i + 1, hs));
    assert(mesh.neighbor_offsets@[j] == half_edges_below(rows, j, hs));
    assert(mesh.neighbor_offsets@[j + 1] == half_edges_below(rows, j + 1, hs));
    if i < j {
        lemma_below_grows(rows, i, j, hs);
    } else if j < i {
        lemma_below_grows(rows, j, i, hs);
    }
    (half_edges_below(rows, i, hs) + qi, half_edges_below(rows, j, hs) + qj)
}

/// Every place below `m` is in exactly one batch.
pub proof fn law_one_batch_each(offsets: Seq<u32>, m: int, k: int) -> (b: int)
    requires
        divides(offsets, m),
        0 <= k < m,
    ensures
        0 <= b < offsets.len() - 1,
        in_batch(offsets, b, k),
        forall|c: int| 0 <= c < offsets.len() - 1 && #[trigger] in_batch(offsets, c, k) ==> c == b,
{
    let b = law_slices_cover(offsets, offsets.len() - 1, k);
    assert forall|c: int| 0 <= c < offsets.len() - 1 && #[trigger] in_batch(
        offsets,
        c,
        k,
    ) implies c == b by {
        if c < b && c + 1 < b {
            assert(offsets[c + 1] < offsets[b]);
        } else if b < c && b + 1 < c {
            assert(offsets[b + 1] < offsets[c]);
        }
    }
    b
}

/// The constraints of the batches are those that were sorted into them, each once.
pub proof fn law_batches_keep_constraints<S>(
    rows: Seq<Constraint<S>>,
    order: Seq<u32>,
    offsets: Seq<u32>,
)
    requires
        batches_right(rows, order, offsets),
    ensures
        reordered(rows, order).to_multiset() == rows.to_multiset(),
{
    let wide = order.map_values(|e: u32| e as int);
    assert forall|e: int| 0 <= e < rows.len() implies #[trigger] wide.contains(e) by {
        assert(order.contains(e as u32));
        let k = choose|k: int| 0 <= k < order.len() && order[k] == e as u32;
        assert(wide[k] == e);
    }
    lemma_permuted(rows, wide, reordered(rows, order));
}

proof fn lemma_permuted<T>(rows: Seq<T>, order: Seq<int>, sorted: Seq<T>)
    requires
        order.len() == rows.len(),
        sorted.len() == rows.len(),
        forall|k: int| 0 <= k < order.len() ==> 0 <= #[trigger] order[k] < rows.len(),
        forall|k: int, l: int| 0 <= k < l < order.len() ==> #[trigger] order[k] != #[trigger] order[l],
        forall|e: int| 0 <= e < rows.len() ==> #[trigger] order.contains(e),
        forall|k: int| 0 <= k < order.len() ==> #[trigger] sorted[k] == rows[order[k]],
    ensures
        sorted.to_multiset() == rows.to_multiset(),
    decreases rows.len(),
{
    broadcast use vstd::seq_lib::group_to_multiset_ensures;

    let n = rows.len() as int;
    if n > 0 {
        assert(order.contains(n - 1));
        let k = choose|k: int| 0 <= k < order.len() && order[k] == n - 1;
        let rows2 = rows.drop_last();
        let order2 = order.remove(k);
        let sorted2 = sorted.remove(k);
        assert forall|l: int| 0 <= l < order2.len() implies 0 <= #[trigger] order2[l] < n - 1 by {
            if l < k {
                assert(order2[l] == order[l]);
                assert(order[l] != order[k]);
            } else {
                assert(order2[l] == order[l + 1]);
                assert(order[k] != order[l + 1]);
            }
        }
        assert forall|a: int, b: int| 0 <= a < b < order2.len() implies #[trigger] order2[a]
            != #[trigger] order2[b] by {
            let a1 = if a < k {
                a
            } else {
                a + 1
            };
            let b1 = if b < k {
                b
            } else {
                b + 1
            };
            assert(order2[a] == order[a1] && order2[b] == order[b1]);
        }
        assert forall|e: int| 0 <= e < n - 1 implies #[trigger] order2.contains(e) by {
            assert(order.contains(e));
            let l = choose|l: int| 0 <= l < order.len() && order[l] == e;
            if l < k {
                assert(order2[l] == e);
            } else {
                assert(order2[l - 1] == e);
            }
        }
        assert forall|l: int| 0 <= l < order2.len() implies #[trigger] sorted2[l]
            == rows2[order2[l]] by {
            if l < k {
                assert(sorted2[l] == sorted[l]);
            } else {
                assert(sorted2[l] == sorted[l + 1]);
            }
        }
        lemma_permuted(rows2, order2, sorted2);
        assert(rows =~= rows2.push(rows.last()));
        assert(sorted[k] == rows.last());
        assert(sorted2.to_multiset() =~= sorted.to_multiset().remove(sorted[k]));
        assert(sorted.to_multiset() =~= sorted2.to_multiset().insert(sorted[k]));
        assert(rows.to_multiset() =~= rows2.to_multiset().insert(rows.last()));
    } else {
        assert(rows =~= sorted);
    }
}

/// The batch and the place of constraint `e`.
proof fn lemma_place_of<S>(
    rows: Seq<Constraint<S>>,
    order: Seq<u32>,
    offsets: Seq<u32>,
    e: int,
) -> (r: (int, int))
    requires
        batches_right(rows, order, offsets),
        0 <= e < rows.len(),
    ensures
        0 <= r.0 < offsets.len() - 1,
        in_batch(offsets, r.0, r.1),
        0 <= r.1 < order.len(),
        order[r.1] == e,
{
    assert(order.contains(e as u32));
    let k = choose|k: int| 0 <= k < order.len() && order[k] == e as u32;
    let b = law_one_batch_each(offsets, rows.len() as int, k);
    (b, k)
}

/// Places of a batch are places of the order.
proof fn lemma_in_order(offsets: Seq<u32>, m: int, b: int, k: int)
    requires
        divides(offsets, m),
        0 <= b < offsets.len() - 1,
        in_batch(offsets, b, k),
    ensures
        0 <= k < m,
{
    if b + 1 < offsets.len() - 1 {
        assert(offsets[b + 1] < offsets[offsets.len() - 1]);
    }
}

/// How late constraint `e` is visited.
spec fn visit_key<S>(rows: Seq<Constraint<S>>, e: int) -> int {
    (2 * rows.len() - priority(rows, e)) * rows.len() + e
}

proof fn lemma_visit_key<S>(rows: Seq<Constraint<S>>, e: int, f: int)
    requires
        0 <= e < rows.len(),
        0 <= f < rows.len(),
    ensures
        visit_key(rows, e) >= 0,
        visited_before(rows, e, f) ==> visit_key(rows, e) < visit_key(rows, f),
{
    let m = rows.len() as int;
    lemma_half_edges(rows, rows[e].i as int, 2 * m);
    lemma_half_edges(rows, rows[e].j as int, 2 * m);
    lemma_half_edges(rows, rows[f].i as int, 2 * m);
    lemma_half_edges(rows, rows[f].j as int, 2 * m);
    let (p, q) = (2 * m - priority(rows, e), 2 * m - priority(rows, f));
    assert(p * m + e >= 0) by (nonlinear_arith)
        requires
            0 <= p,
            0 <= m,
            0 <= e,
    ;
    if p < q {
        assert(p * m + e < q * m + f) by (nonlinear_arith)
            requires
                p < q,
                0 <= e < m,
                0 <= f,
        ;
    }
}

/// Both divisions put a constraint into the same batch.
proof fn lemma_same_batch<S>(
    rows: Seq<Constraint<S>>,
    order1: Seq<u32>,
    offsets1: Seq<u32>,
    order2: Seq<u32>,
    offsets2: Seq<u32>,
    b1: int,
    k1: int,
    b2: int,
    k2: int,
)
    requires
        batches_right(rows, order1, offsets1),
        batches_right(rows, order2, offsets2),
        0 <= b1 < offsets1.len() - 1,
        in_batch(offsets1, b1, k1),
        0 <= b2 < offsets2.len() - 1,
        in_batch(offsets2, b2, k2),
        order1[k1] == order2[k2],
    ensures
        b1 == b2,
    decreases visit_key(rows, order1[k1] as int), 1int,
{
    lemma_in_order(offsets1, rows.len() as int, b1, k1);
    lemma_in_order(offsets2, rows.len() as int, b2, k2);
    lemma_not_earlier(rows, order1, offsets1, order2, offsets2, b1, k1, b2, k2);
    lemma_not_earlier(rows, order2, offsets2, order1, offsets1, b2, k2, b1, k1);
}

/// A constraint in batch `b1` of the first division is in no later batch of the second.
proof fn lemma_not_earlier<S>(
    rows: Seq<Constraint<S>>,
    order1: Seq<u32>,
    offsets1: Seq<u32>,
    order2: Seq<u32>,
    offsets2: Seq<u32>,
    b1: int,
    k1: int,
    b2: int,
    k2: int,
)
    requires
        batches_right(rows, order1, offsets1),
        batches_right(rows, order2, offsets2),
        0 <= b1 < offsets1.len() - 1,
        in_batch(offsets1, b1, k1),
        0 <= b2 < offsets2.len() - 1,
        in_batch(offsets2, b2, k2),
        order1[k1] == order2[k2],
    ensures
        b1 >= b2,
    decreases visit_key(rows, order1[k1] as int), 0int,
{
    let m = rows.len() as int;
    lemma_in_order(offsets1, m, b1, k1);
    lemma_in_order(offsets2, m, b2, k2);
    let e = order1[k1] as int;
    assert(order1[k1] < order1.len());
    if b1 < b2 {
        assert(fits_first(rows, order2, offsets2, b2, order2[k2] as int));
        assert(blocked(rows, order2, offsets2, b1, order2[k2] as int));
        let l2 = choose|l: int|
            #![trigger order2[l]]
            in_batch(offsets2, b1, l) && share(rows[order2[l] as int], rows[e]) && visited_before(
                rows,
                order2[l] as int,
                e,
            );
        lemma_in_order(offsets2, m, b1, l2);
        let f = order2[l2] as int;
        assert(order2[l2] < order2.len());
        lemma_visit_key(rows, f, e);
        let (c, l1) = lemma_place_of(rows, order1, offsets1, f);
        lemma_same_batch(rows, order1, offsets1, order2, offsets2, c, l1, b1, l2);
        // Both are in batch `b1` of the first division, and share a particle.
        assert(in_batch(offsets1, b1, l1) && in_batch(offsets1, b1, k1));
        if l1 < k1 {
            assert(!share(rows[order1[l1] as int], rows[order1[k1] as int]));
        } else if k1 < l1 {
            assert(!share(rows[order1[k1] as int], rows[order1[l1] as int]));
        } else {
            assert(f == e);
        }
    }
}

/// Of two places, the earlier one is in an earlier batch, or was visited before.
proof fn lemma_stands_before<S>(
    rows: Seq<Constraint<S>>,
    order: Seq<u32>,
    offsets: Seq<u32>,
    k: int,
    l: int,
) -> (r: (int, int))
    requires
        batches_right(rows, order, offsets),
        0 <= k < l < order.len(),
    ensures
        0 <= r.0 <= r.1 < offsets.len() - 1,
        in_batch(offsets, r.0, k),
        in_batch(offsets, r.1, l),
        r.0 < r.1 || visited_before(rows, order[k] as int, order[l] as int),
{
    let m = rows.len() as int;
    let b = law_one_batch_each(offsets, m, k);
    let c = law_one_batch_each(offsets, m, l);
    if b > c {
        if c + 1 < b {
            assert(offsets[c + 1] < offsets[b]);
        }
    }
    (b, c)
}

/// The constraints alone decide their batches and their order.
pub proof fn law_batches_unique<S>(
    rows: Seq<Constraint<S>>,
    order1: Seq<u32>,
    offsets1: Seq<u32>,
    order2: Seq<u32>,
    offsets2: Seq<u32>,
)
    requires
        batches_right(rows, order1, offsets1),
        batches_right(rows, order2, offsets2),
    ensures
        order1 == order2,
        offsets1 == offsets2,
{
    lemma_orders_agree(rows, order1, offsets1, order2, offsets2, rows.len() as int);
    assert(order1 =~= order2);
    // The batches of equal places agree, so the offsets do.
    lemma_offsets_agree(rows, order1, offsets1, offsets2, offsets1.len() - 1);
    lemma_offsets_agree(rows, order1, offsets2, offsets1, offsets2.len() - 1);
    assert forall|b: int| 0 <= b < offsets1.len() implies #[trigger] offsets1[b] == offsets2[b] by {
        lemma_offsets_agree(rows, order1, offsets1, offsets2, b);
    }
    assert(offsets1 =~= offsets2);
}

proof fn lemma_offsets_agree<S>(
    rows: Seq<Constraint<S>>,
    order: Seq<u32>,
    offsets1: Seq<u32>,
    offsets2: Seq<u32>,
    b: int,
)
    requires
        batches_right(rows, order, offsets1),
        batches_right(rows, order, offsets2),
        0 <= b < offsets1.len(),
    ensures
        b < offsets2.len(),
        offsets1[b] == offsets2[b],
    decreases b,
{
    let m = rows.len() as int;
    if b > 0 {
        lemma_offsets_agree(rows, order, offsets1, offsets2, b - 1);
        // Batch `b - 1` starts at the same place in both, and holds the same places.
        let s = offsets1[b - 1] as int;
        assert(offsets1[b - 1] < offsets1[b]);
        assert(in_batch(offsets1, b - 1, s));
        lemma_in_order(offsets1, m, b - 1, s);
        let c = law_one_batch_each(offsets2, m, s);
        lemma_same_batch(rows, order, offsets1, order, offsets2, b - 1, s, c, s);
        let (e1, e2) = (offsets1[b] as int, offsets2[b] as int);
        assert(offsets2[b - 1] < offsets2[b]);
        if e1 < e2 {
            assert(in_batch(offsets2, b - 1, e1));
            lemma_in_order(offsets2, m, b - 1, e1);
            let d = law_one_batch_each(offsets1, m, e1);
            lemma_same_batch(rows, order, offsets1, order, offsets2, d, e1, b - 1, e1);
        } else if e2 < e1 {
            assert(in_batch(offsets1, b - 1, e2));
            lemma_in_order(offsets1, m, b - 1, e2);
            let d = law_one_batch_each(offsets2, m, e2);
            lemma_same_batch(rows, order, offsets1, order, offsets2, b - 1, e2, d, e2);
        }
    }
}

/// The first `n` places hold the same constraints.
proof fn lemma_orders_agree<S>(
    rows: Seq<Constraint<S>>,
    order1: Seq<u32>,
    offsets1: Seq<u32>,
    order2: Seq<u32>,
    offsets2: Seq<u32>,
    n: int,
)
    requires
        batches_right(rows, order1, offsets1),
        batches_right(rows, order2, offsets2),
        0 <= n <= rows.len(),
    ensures
        forall|k: int| 0 <= k < n ==> #[trigger] order1[k] == order2[k],
    decreases n,
{
    if n > 0 {
        lemma_orders_agree(rows, order1, offsets1, order2, offsets2, n - 1);
        let k = n - 1;
        let (e, f) = (order1[k] as int, order2[k] as int);
        assert(order1[k] < order1.len() && order2[k] < order2.len());
        if e != f {
            // Each of the two stands later in the other order.
            let (b1, l1) = lemma_place_of(rows, order1, offsets1, f);
            let (b2, l2) = lemma_place_of(rows, order2, offsets2, e);
            assert(l1 > k) by {
                if l1 < k {
                    assert(order1[l1] == order2[l1]);
                }
            }
            assert(l2 > k) by {
                if l2 < k {
                    assert(order1[l2] == order2[l2]);
                }
            }
            let (x1, y1) = lemma_stands_before(rows, order1, offsets1, k, l1);
            let (x2, y2) = lemma_stands_before(rows, order2, offsets2, k, l2);
            lemma_same_batch(rows, order1, offsets1, order2, offsets2, x1, k, y2, l2);
            lemma_same_batch(rows, order1, offsets1, order2, offsets2, y1, l1, x2, k);
            lemma_visit_key(rows, e, f);
            lemma_visit_key(rows, f, e);
        }
    }
}

/// The particles on the top boundary have no inverse mass.
pub proof fn law_top_is_pinned<S>(
    mesh: ClothMeshData<S>,
    m: MeshModel<S>,
    zero: S,
    lowest: S,
    extras: Seq<Constraint<S>>,
    compliances: Compliances<S>,
    p: int,
)
    requires
        mesh.wf(),
        mesh_values(mesh, m, zero, lowest, extras, compliances),
        0 <= p < mesh.num_particles,
        is_pinned(m, lowest, mesh.positions@, p),
    ensures
        mesh.inv_mass@[p] == zero,
{
}

/// Particles that fill a grid in the order of their numbers are braced as a grid is.
pub proof fn law_fitted_as_grid<S>(
    positions: Seq<[S; 3]>,
    lines_x: Seq<S>,
    lines_y: Seq<S>,
    near: spec_fn(S, S) -> bool,
)
    requires
        positions.len() <= u32::MAX,
        fills_grid(positions, lines_x, lines_y, near),
        forall|p: int|
            0 <= p < positions.len() ==> slot(lines_x, lines_y, near, #[trigger] positions[p]) == p,
    ensures
        fitted_pairs(positions, lines_x, lines_y, near) == skip_two_pairs(
            lines_x.len() as int,
            lines_y.len() as int,
        ),
{
    let pairs = skip_two_pairs(lines_x.len() as int, lines_y.len() as int);
    let found = fitted_pairs(positions, lines_x, lines_y, near);
    law_grid_pairs_below(lines_x.len() as int, lines_y.len() as int);
    assert forall|at: int| 0 <= at < positions.len() implies #[trigger] particle_at(
        positions,
        lines_x,
        lines_y,
        near,
        at,
    ) == at by {
        assert(slot(lines_x, lines_y, near, positions[at]) == at);
        let p = particle_at(positions, lines_x, lines_y, near, at);
        assert(slot(lines_x, lines_y, near, positions[p]) == at);
        assert(slot(lines_x, lines_y, near, positions[p]) == p);
    }
    assert forall|k: int| 0 <= k < pairs.len() implies found[k] == pairs[k] by {
        assert(pairs[k].0 < pairs[k].1 < lines_x.len() * lines_y.len());
    }
    assert(found =~= pairs);
}

/// The braced diagonal of a grid quad is no edge of any triangle of the grid.
pub proof fn law_cross_pairs_are_no_edges(quad_cols: int, quad_rows: int, e: int, q: int)
    requires
        1 <= quad_cols,
        1 <= quad_rows,
        (quad_cols + 1) * (quad_rows + 1) <= u32::MAX,
        0 <= e < edge_count(grid_indices(quad_cols, quad_rows)),
        0 <= q < cross_pairs(quad_cols, quad_rows).len(),
    ensures
        edge_ends(grid_indices(quad_cols, quad_rows), e) != cross_pairs(quad_cols, quad_rows)[q],
{
    let quads = quad_cols * quad_rows;
    assert(quads >= 0) by (nonlinear_arith)
        requires
            quads == quad_cols * quad_rows,
            quad_cols >= 1,
            quad_rows >= 1,
    ;
    lemma_quad_corner(quad_cols, quad_rows, q);
    let t = e / 3;
    lemma_quad_corner(quad_cols, quad_rows, t / 2);
    let indices = grid_indices(quad_cols, quad_rows);
    let i0 = quad_corner(quad_cols, t / 2);
    // The two triangles of a quad are the two triples of its six corners.
    let (a, b) = (3 * t + e % 3, 3 * t + (e % 3 + 1) % 3);
    assert(a / 6 == t / 2 && b / 6 == t / 2);
    assert(indices[a] == quad_triangle_corner(quad_cols, i0, a % 6));
    assert(indices[b] == quad_triangle_corner(quad_cols, i0, b % 6));
    let step = quad_cols + 1;
    assert(a % 6 == 3 * (t % 2) + e % 3 && b % 6 == 3 * (t % 2) + (e % 3 + 1) % 3);
}

} // verus!
