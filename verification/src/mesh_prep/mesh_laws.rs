//! The inverse masses and the constraints of a mesh.

use vstd::prelude::*;

use crate::mesh_prep::batches::{batches_right, lists_all};
use crate::mesh_prep::braces::{cross_pairs, law_grid_pairs_below, skip_two_pairs};
use crate::mesh_prep::cloth_mesh::{
    collected, in_batches, linked, mesh_values, reordered, ClothMeshData, Compliances,
};
use crate::mesh_prep::hanging::grid_braces;
use crate::mesh_prep::mass::{gathered_mass, particle_inv_mass, top_height};
use crate::mesh_prep::neighbors::Constraint;
use crate::mesh_prep::obj::{faces, statements};
use crate::mesh_prep::obj_mesh::{particle_words, text_braces};
use crate::mesh_prep::ops::MeshModel;
use crate::mesh_prep::topology::{
    bend_pairs, corner, edge_ends, law_edges_are_stretched, law_hinges_are_bent,
    law_neighbors_unique, ordered, stretch_pairs, NO_NEIGHBOR,
};
use crate::mesh_prep::weld::quad_diagonals;

verus! {

proof fn lemma_same_mass<S>(
    m: MeshModel<S>,
    zero: S,
    positions: Seq<[S; 3]>,
    indices: Seq<u32>,
    more: Seq<u32>,
    p: int,
    c: int,
)
    requires
        indices.len() % 3 == 0,
        c <= indices.len(),
    ensures
        gathered_mass(m, zero, positions, indices + more, p, c) == gathered_mass(
            m,
            zero,
            positions,
            indices,
            p,
            c,
        ),
    decreases c,
{
    if c > 0 {
        lemma_same_mass(m, zero, positions, indices, more, p, c - 1);
        let t = 3 * ((c - 1) / 3);
        assert(t + 2 < indices.len());
        let all = indices + more;
        assert(all[t] == indices[t] && all[t + 1] == indices[t + 1] && all[t + 2] == indices[t + 2]);
        assert(all[c - 1] == indices[c - 1]);
    }
}

/// One more triangle adds its share to the mass of each of its three corners, and to no other
/// particle. Without triangles there is no mass.
pub proof fn law_triangle_adds_mass<S>(
    m: MeshModel<S>,
    zero: S,
    positions: Seq<[S; 3]>,
    indices: Seq<u32>,
    a: u32,
    b: u32,
    c: u32,
    p: int,
)
    requires
        indices.len() % 3 == 0,
        a != b,
        b != c,
        a != c,
    ensures
        ({
            let n = indices.len() as int;
            let before = gathered_mass(m, zero, positions, indices, p, n);
            let after = gathered_mass(m, zero, positions, indices + seq![a, b, c], p, n + 3);
            let share = (m.mass_share)(positions[a as int], positions[b as int], positions[c as int]);
            &&& n == 0 ==> before == zero
            &&& p == a || p == b || p == c ==> after == (m.plus)(before, share)
            &&& p != a && p != b && p != c ==> after == before
        }),
{
    let n = indices.len() as int;
    let more = seq![a, b, c];
    let all = indices + more;
    lemma_same_mass(m, zero, positions, indices, more, p, n);
    assert(all[n] == a && all[n + 1] == b && all[n + 2] == c);
    assert(3 * (n / 3) == n && 3 * ((n + 1) / 3) == n && 3 * ((n + 2) / 3) == n);
    reveal_with_fuel(gathered_mass, 4);
}

/// A particle has the mass of its triangles, unless it is at the top: those have none, and so are
/// pinned.
pub proof fn law_particle_mass<S>(
    m: MeshModel<S>,
    zero: S,
    lowest: S,
    positions: Seq<[S; 3]>,
    indices: Seq<u32>,
    p: int,
)
    requires
        indices.len() % 3 == 0,
    ensures
        ({
            let top = top_height(m, lowest, positions, positions.len() as int);
            let w = particle_inv_mass(m, zero, lowest, positions, indices, p);
            &&& (m.at_top)(positions[p][1], top) ==> w == zero
            &&& !(m.at_top)(positions[p][1], top) ==> w == gathered_mass(
                m,
                zero,
                positions,
                indices,
                p,
                indices.len() as int,
            )
        }),
{
}

/// `larger` gives the larger of two numbers.
pub open spec fn takes_larger(m: MeshModel<real>) -> bool {
    forall|a: real, b: real|
        #[trigger] (m.larger)(a, b) == if a < b {
            b
        } else {
            a
        }
}

/// No particle is above the top height, and one is at it.
pub proof fn law_top_height(
    m: MeshModel<real>,
    lowest: real,
    positions: Seq<[real; 3]>,
    k: int,
)
    requires
        takes_larger(m),
        0 < k <= positions.len(),
        forall|p: int| 0 <= p < positions.len() ==> lowest <= (#[trigger] positions[p])[1],
    ensures
        forall|p: int|
            0 <= p < k ==> (#[trigger] positions[p])[1] <= top_height(m, lowest, positions, k),
        exists|p: int|
            0 <= p < k && (#[trigger] positions[p])[1] == top_height(m, lowest, positions, k),
    decreases k,
{
    let last = positions[k - 1];
    if k == 1 {
        assert(top_height(m, lowest, positions, 0) == lowest);
        assert(positions[0][1] == top_height(m, lowest, positions, 1));
    } else {
        law_top_height(m, lowest, positions, k - 1);
        let p = choose|p: int|
            0 <= p < k - 1 && (#[trigger] positions[p])[1] == top_height(
                m,
                lowest,
                positions,
                k - 1,
            );
        let q = if last[1] == top_height(m, lowest, positions, k) {
            k - 1
        } else {
            p
        };
        assert(positions[q][1] == top_height(m, lowest, positions, k));
    }
}

/// A constraint between a pair: it is as long at rest as the pair is apart, and has the compliance.
pub open spec fn holds_pair<S>(
    m: MeshModel<S>,
    positions: Seq<[S; 3]>,
    row: Constraint<S>,
    pair: (u32, u32),
    compliance: S,
) -> bool {
    &&& row.i == pair.0
    &&& row.j == pair.1
    &&& row.rest == (m.dist)(positions[pair.0 as int], positions[pair.1 as int])
    &&& row.compliance == compliance
}

/// Each pair, the smaller number first, gets one constraint in its place.
pub proof fn law_linked<S>(
    m: MeshModel<S>,
    pairs: Seq<(u32, u32)>,
    positions: Seq<[S; 3]>,
    compliance: S,
    k: int,
)
    requires
        0 <= k < pairs.len(),
        pairs[k].0 <= pairs[k].1,
    ensures
        linked(m, pairs, positions, compliance).len() == pairs.len(),
        holds_pair(
            m,
            positions,
            linked(m, pairs, positions, compliance)[k],
            pairs[k],
            compliance,
        ),
{
}

/// The braces of a grid: a constraint for each pair two apart, and then one for each diagonal, each
/// with the compliance of its kind.
pub proof fn law_grid_braces<S>(
    m: MeshModel<S>,
    quad_cols: int,
    quad_rows: int,
    positions: Seq<[S; 3]>,
    compliances: Compliances<S>,
    k: int,
)
    requires
        1 <= quad_cols,
        1 <= quad_rows,
        (quad_cols + 1) * (quad_rows + 1) <= u32::MAX,
        0 <= k,
    ensures
        ({
            let skips = skip_two_pairs(quad_cols + 1, quad_rows + 1);
            let cross = cross_pairs(quad_cols, quad_rows);
            let rows = grid_braces(m, quad_cols, quad_rows, positions, compliances);
            &&& rows.len() == skips.len() + cross.len()
            &&& k < skips.len() ==> holds_pair(m, positions, rows[k], skips[k], compliances.skip2)
            &&& k < cross.len() ==> holds_pair(
                m,
                positions,
                rows[skips.len() + k],
                cross[k],
                compliances.cross_diag,
            )
        }),
{
    law_grid_pairs_below(quad_cols + 1, quad_rows + 1);
    let skips = skip_two_pairs(quad_cols + 1, quad_rows + 1);
    let cross = cross_pairs(quad_cols, quad_rows);
    if k < skips.len() {
        assert(skips[k].0 < skips[k].1);
        law_linked(m, skips, positions, compliances.skip2, k);
    }
    if k < cross.len() {
        assert(cross_pairs(quad_cols + 1 - 1, quad_rows + 1 - 1)[k] == cross[k]);
        assert(cross[k].0 < cross[k].1);
        law_linked(m, cross, positions, compliances.cross_diag, k);
    }
}

/// The braces of a text: a constraint for each pair that was found two apart, and then one for each
/// open diagonal of a quad, each with the compliance of its kind.
pub proof fn law_text_braces<S>(
    m: MeshModel<S>,
    positions: Seq<[S; 3]>,
    text: Seq<char>,
    skips: Seq<(u32, u32)>,
    compliances: Compliances<S>,
    k: int,
)
    requires
        0 <= k,
        k < skips.len() ==> skips[k].0 <= skips[k].1,
    ensures
        ({
            let cross = quad_diagonals(particle_words(text), faces(statements(text)));
            let rows = text_braces(m, positions, text, skips, compliances);
            &&& rows.len() == skips.len() + cross.len()
            &&& k < skips.len() ==> holds_pair(m, positions, rows[k], skips[k], compliances.skip2)
            &&& k < cross.len() && cross[k].0 <= cross[k].1 ==> holds_pair(
                m,
                positions,
                rows[skips.len() + k],
                cross[k],
                compliances.cross_diag,
            )
        }),
{
    let cross = quad_diagonals(particle_words(text), faces(statements(text)));
    if k < skips.len() {
        law_linked(m, skips, positions, compliances.skip2, k);
    }
    if k < cross.len() && cross[k].0 <= cross[k].1 {
        law_linked(m, cross, positions, compliances.cross_diag, k);
    }
}

proof fn lemma_kept<S>(mesh: ClothMeshData<S>, rows: Seq<Constraint<S>>, e: int) -> (k: int)
    requires
        in_batches(rows, mesh.rows(), mesh.constraint_batch_offsets@),
        0 <= e < rows.len(),
        rows.len() <= u32::MAX,
    ensures
        0 <= k < mesh.rows().len(),
        mesh.rows()[k] == rows[e],
{
    let order = choose|order: Seq<u32>| #[trigger]
        batches_right(rows, order, mesh.constraint_batch_offsets@) && mesh.rows() == reordered(
            rows,
            order,
        );
    assert(lists_all(order));
    assert(order.contains(e as u32));
    let k = choose|k: int| 0 <= k < order.len() && order[k] == e as u32;
    assert(mesh.rows()[k] == rows[order[k] as int]);
    k
}

/// An edge that stands alone, or of which a triangle runs from the smaller to the larger end, has a
/// constraint of the mesh with the compliance of stretching.
pub proof fn law_edge_has_constraint<S>(
    mesh: ClothMeshData<S>,
    m: MeshModel<S>,
    zero: S,
    lowest: S,
    extras: Seq<Constraint<S>>,
    compliances: Compliances<S>,
    e: int,
) -> (k: int)
    requires
        mesh.wf(),
        mesh_values(mesh, m, zero, lowest, extras, compliances),
        0 <= e < mesh.tri_edge_neighbors@.len(),
        ({
            let f = mesh.tri_edge_neighbors@[e];
            let tri = mesh.indices@;
            ||| f == NO_NEIGHBOR
            ||| corner(tri, e, 0) < corner(tri, e, 1)
            ||| corner(tri, f as int, 0) < corner(tri, f as int, 1)
        }),
    ensures
        0 <= k < mesh.rows().len(),
        holds_pair(
            m,
            mesh.positions@,
            mesh.rows()[k],
            edge_ends(mesh.indices@, e),
            compliances.stretch,
        ),
{
    let tri = mesh.indices@;
    let neighbors = mesh.tri_edge_neighbors@;
    law_neighbors_unique(tri, neighbors);
    law_edges_are_stretched(tri, neighbors, e);
    let pairs = stretch_pairs(tri, neighbors);
    let rows = collected(m, mesh.positions@, tri, extras, compliances);
    let at = choose|at: int| 0 <= at < pairs.len() && pairs[at] == edge_ends(tri, e);
    law_linked(m, pairs, mesh.positions@, compliances.stretch, at);
    assert(rows[at] == linked(m, pairs, mesh.positions@, compliances.stretch)[at]);
    lemma_row_count(mesh, rows);
    lemma_kept(mesh, rows, at)
}

proof fn lemma_row_count<S>(mesh: ClothMeshData<S>, rows: Seq<Constraint<S>>)
    requires
        mesh.wf(),
        in_batches(rows, mesh.rows(), mesh.constraint_batch_offsets@),
    ensures
        rows.len() <= u32::MAX,
{
    let order = choose|order: Seq<u32>| #[trigger]
        batches_right(rows, order, mesh.constraint_batch_offsets@) && mesh.rows() == reordered(
            rows,
            order,
        );
    assert(mesh.rows().len() == order.len());
}

/// The two corners opposite to an edge that two triangles share have a constraint of the mesh with
/// the compliance of bending.
pub proof fn law_hinge_has_constraint<S>(
    mesh: ClothMeshData<S>,
    m: MeshModel<S>,
    zero: S,
    lowest: S,
    extras: Seq<Constraint<S>>,
    compliances: Compliances<S>,
    e: int,
) -> (k: int)
    requires
        mesh.wf(),
        mesh_values(mesh, m, zero, lowest, extras, compliances),
        0 <= e < mesh.tri_edge_neighbors@.len(),
        mesh.tri_edge_neighbors@[e] != NO_NEIGHBOR,
    ensures
        0 <= k < mesh.rows().len(),
        holds_pair(
            m,
            mesh.positions@,
            mesh.rows()[k],
            ordered(
                corner(mesh.indices@, e, 2),
                corner(mesh.indices@, mesh.tri_edge_neighbors@[e] as int, 2),
            ),
            compliances.bend,
        ),
{
    let tri = mesh.indices@;
    let neighbors = mesh.tri_edge_neighbors@;
    law_neighbors_unique(tri, neighbors);
    law_hinges_are_bent(tri, neighbors, e);
    let pairs = bend_pairs(tri, neighbors);
    let stretch = linked(m, stretch_pairs(tri, neighbors), mesh.positions@, compliances.stretch);
    let rows = collected(m, mesh.positions@, tri, extras, compliances);
    let hinge = ordered(corner(tri, e, 2), corner(tri, neighbors[e] as int, 2));
    let at = choose|at: int| 0 <= at < pairs.len() && pairs[at] == hinge;
    law_linked(m, pairs, mesh.positions@, compliances.bend, at);
    assert(rows[stretch.len() + at] == linked(m, pairs, mesh.positions@, compliances.bend)[at]);
    lemma_row_count(mesh, rows);
    lemma_kept(mesh, rows, stretch.len() + at)
}

/// The further constraints of a mesh are all among its constraints.
pub proof fn law_extras_are_kept<S>(
    mesh: ClothMeshData<S>,
    m: MeshModel<S>,
    zero: S,
    lowest: S,
    extras: Seq<Constraint<S>>,
    compliances: Compliances<S>,
    x: int,
) -> (k: int)
    requires
        mesh.wf(),
        mesh_values(mesh, m, zero, lowest, extras, compliances),
        0 <= x < extras.len(),
    ensures
        0 <= k < mesh.rows().len(),
        mesh.rows()[k] == extras[x],
{
    let rows = collected(m, mesh.positions@, mesh.indices@, extras, compliances);
    let at = rows.len() - extras.len() + x;
    assert(rows[at] == extras[x]);
    lemma_row_count(mesh, rows);
    lemma_kept(mesh, rows, at)
}

} // verus!
