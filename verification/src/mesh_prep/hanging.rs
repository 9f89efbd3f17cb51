//! A rectangle of cloth that hangs from its top row.

use vstd::arithmetic::div_mod::lemma_fundamental_div_mod;
use vstd::prelude::*;

use crate::mesh_prep::braces::{
    cross_pairs, grid_indices, grid_quad_cross_pairs, grid_skip_two_pairs,
    grid_triangles, law_grid_pairs_below, link_pairs, links, minus_two, skip_two_pairs,
};
use crate::mesh_prep::cloth_mesh::{
    append_rows, constraint_count, finalize_cloth_mesh, lemma_linked, linked, mesh_values,
    ClothMeshData, Compliances,
};
use crate::mesh_prep::neighbors::{filled, Constraint};
use crate::mesh_prep::ops::{MeshModel, MeshOps};
use crate::mesh_prep::topology::{
    bend_candidate, edge_count, law_distinct_pairs, neighbors_of, stretch_candidate,
};

verus! {

/// The constraints of a grid beside edges and hinges: the pairs two apart, then the diagonals that
/// no triangle has.
pub open spec fn grid_braces<S>(
    m: MeshModel<S>,
    quad_cols: int,
    quad_rows: int,
    positions: Seq<[S; 3]>,
    compliances: Compliances<S>,
) -> Seq<Constraint<S>> {
    linked(m, skip_two_pairs(quad_cols + 1, quad_rows + 1), positions, compliances.skip2) + linked(
        m,
        cross_pairs(quad_cols, quad_rows),
        positions,
        compliances.cross_diag,
    )
}

/// How many constraints a grid has.
pub open spec fn grid_constraint_count(quad_cols: int, quad_rows: int) -> int {
    constraint_count(
        grid_indices(quad_cols, quad_rows),
        (skip_two_pairs(quad_cols + 1, quad_rows + 1).len() + cross_pairs(
            quad_cols,
            quad_rows,
        ).len()) as int,
    )
}

/// The particles of a grid, their triangles and their constraints can be numbered.
pub open spec fn grid_fits(quad_cols: int, quad_rows: int) -> bool {
    &&& (quad_cols + 1) * (quad_rows + 1) < u32::MAX
    &&& 6 * (quad_cols * quad_rows) <= u32::MAX
    &&& 2 * grid_constraint_count(quad_cols, quad_rows) <= u32::MAX
}

/// Every grid of up to a hundred million quads fits.
pub proof fn law_grid_fits(quad_cols: int, quad_rows: int)
    requires
        1 <= quad_cols,
        1 <= quad_rows,
        quad_cols * quad_rows <= 100_000_000,
    ensures
        grid_fits(quad_cols, quad_rows),
{
    let q = quad_cols * quad_rows;
    let v = (quad_cols + 1) * (quad_rows + 1);
    let w = minus_two(quad_cols + 1);
    let h = minus_two(quad_rows + 1);
    assert(q >= 1 && v <= 4 * q && v < u32::MAX) by (nonlinear_arith)
        requires
            1 <= quad_cols,
            1 <= quad_rows,
            q == quad_cols * quad_rows,
            v == (quad_cols + 1) * (quad_rows + 1),
            q <= 100_000_000,
    ;
    assert(0 <= (quad_rows + 1) * w <= v && 0 <= h * (quad_cols + 1) <= v) by (nonlinear_arith)
        requires
            1 <= quad_cols,
            1 <= quad_rows,
            0 <= w <= quad_cols + 1,
            0 <= h <= quad_rows + 1,
            v == (quad_cols + 1) * (quad_rows + 1),
    ;
    let indices = grid_indices(quad_cols, quad_rows);
    assert(edge_count(indices) == 6 * q);
    let neighbors = neighbors_of(indices);
    law_distinct_pairs(|e: int| stretch_candidate(indices, neighbors, e), edge_count(indices));
    law_distinct_pairs(|e: int| bend_candidate(indices, neighbors, e), edge_count(indices));
}

/// The grid point of particle `k`.
pub open spec fn placed_by<S, G: Fn(u32, u32) -> [S; 3]>(
    positions: Seq<[S; 3]>,
    cols: int,
    point: G,
) -> bool {
    forall|k: int|
        0 <= k < positions.len() ==> point.ensures(
            ((k % cols) as u32, (k / cols) as u32),
            #[trigger] positions[k],
        )
}

/// The texture coordinates of particle `k`.
pub open spec fn textured_by<S, U: Fn(u32, u32) -> [S; 2]>(
    uvs: Seq<[S; 2]>,
    cols: int,
    uv: U,
) -> bool {
    forall|k: int|
        0 <= k < uvs.len() ==> uv.ensures(
            ((k % cols) as u32, (k / cols) as u32),
            #[trigger] uvs[k],
        )
}

proof fn lemma_grid_point(cols: int, rows: int, k: int)
    requires
        1 <= cols <= u32::MAX,
        1 <= rows <= u32::MAX,
        0 <= k < cols * rows,
    ensures
        0 <= k % cols < cols,
        0 <= k / cols < rows,
{
    lemma_fundamental_div_mod(k, cols);
    let d = k / cols;
    let m = k % cols;
    assert(0 <= d < rows) by (nonlinear_arith)
        requires
            k == cols * d + m,
            0 <= m < cols,
            0 <= k < cols * rows,
    ;
}

/// A grid of quads. Particle `k` is at the point of column `k % (quad_cols + 1)` and row
/// `k / (quad_cols + 1)`.
pub fn grid_cloth_hanging<
    S: Copy,
    G: Fn(u32, u32) -> [S; 3],
    U: Fn(u32, u32) -> [S; 2],
    D: Fn([S; 3], [S; 3]) -> S,
    W: Fn([S; 3], [S; 3], [S; 3]) -> S,
    A: Fn(S, S) -> S,
    M: Fn(S, S) -> S,
    T: Fn(S, S) -> bool,
    L: Fn(S, S) -> bool,
    F: Fn(S, S) -> bool,
    N: Fn(S, S) -> bool,
>(
    quad_cols: u32,
    quad_rows: u32,
    point: &G,
    uv: &U,
    normal: [S; 3],
    compliances: Compliances<S>,
    ops: &MeshOps<S, D, W, A, M, T, L, F, N>,
) -> (mesh: ClothMeshData<S>)
    requires
        quad_cols >= 1,
        quad_rows >= 1,
        grid_fits(quad_cols as int, quad_rows as int),
        ops.total(),
        forall|ix: u32, iy: u32| #[trigger] point.requires((ix, iy)),
        forall|ix: u32, iy: u32| #[trigger] uv.requires((ix, iy)),
    ensures
        mesh.wf(),
        mesh.num_particles == (quad_cols + 1) * (quad_rows + 1),
        placed_by(mesh.positions@, quad_cols + 1, *point),
        mesh.rest_positions@ == mesh.positions@,
        mesh.uvs@.len() == mesh.num_particles,
        textured_by(mesh.uvs@, quad_cols + 1, *uv),
        mesh.normals@ == Seq::new(mesh.num_particles as nat, |k: int| normal),
        mesh.indices@ == grid_indices(quad_cols as int, quad_rows as int),
        forall|m: MeshModel<S>| #[trigger]
            ops.computes(m) ==> mesh_values(
                mesh,
                m,
                ops.zero,
                ops.lowest,
                grid_braces(
                    m,
                    quad_cols as int,
                    quad_rows as int,
                    mesh.positions@,
                    compliances,
                ),
                compliances,
            ),
{
    assert(quad_cols < u32::MAX && quad_rows < u32::MAX) by (nonlinear_arith)
        requires
            quad_cols >= 1,
            quad_rows >= 1,
            (quad_cols + 1) * (quad_rows + 1) < u32::MAX,
    ;
    let cols: u32 = quad_cols + 1;
    let rows: u32 = quad_rows + 1;
    let n: u32 = cols * rows;
    let mut positions: Vec<[S; 3]> = Vec::new();
    let mut uvs: Vec<[S; 2]> = Vec::new();
    let mut k: u32 = 0;
    while k < n
        invariant
            k <= n,
            n == cols * rows,
            cols >= 1,
            rows >= 1,
            forall|ix: u32, iy: u32| #[trigger] point.requires((ix, iy)),
            forall|ix: u32, iy: u32| #[trigger] uv.requires((ix, iy)),
            positions@.len() == k,
            uvs@.len() == k,
            placed_by(positions@, cols as int, *point),
            textured_by(uvs@, cols as int, *uv),
        decreases n - k,
    {
        proof {
            lemma_grid_point(cols as int, rows as int, k as int);
        }
        positions.push(point(k % cols, k / cols));
        uvs.push(uv(k % cols, k / cols));
        k = k + 1;
    }
    let normals = filled(normal, n as usize);
    let indices = grid_triangles(quad_cols, quad_rows);
    proof {
        law_grid_pairs_below(cols as int, rows as int);
        assert(cols as int - 1 == quad_cols as int && rows as int - 1 == quad_rows as int);
    }
    let skips = grid_skip_two_pairs(cols, rows);
    let crosses = grid_quad_cross_pairs(quad_cols, quad_rows);
    let mut extras = link_pairs(
        skips.as_slice(),
        positions.as_slice(),
        &ops.dist,
        compliances.skip2,
    );
    let ghost skip_rows = extras@;
    let cross_rows = link_pairs(
        crosses.as_slice(),
        positions.as_slice(),
        &ops.dist,
        compliances.cross_diag,
    );
    append_rows(&mut extras, cross_rows.as_slice());
    proof {
        assert forall|e: int| 0 <= e < extras@.len() implies (#[trigger] extras@[e]).i < n
            && extras@[e].j < n by {
            if e < skip_rows.len() {
                assert(extras@[e] == skip_rows[e]);
                assert(links(skip_rows[e], skips@[e], positions@, ops.dist, compliances.skip2));
            } else {
                let l = e - skip_rows.len();
                assert(extras@[e] == cross_rows@[l]);
                assert(links(
                    cross_rows@[l],
                    crosses@[l],
                    positions@,
                    ops.dist,
                    compliances.cross_diag,
                ));
            }
        }
    }
    let ghost placed = positions@;
    let mesh = finalize_cloth_mesh(
        positions,
        normals,
        uvs,
        indices,
        extras.as_slice(),
        compliances,
        ops,
    );
    proof {
        assert forall|m: MeshModel<S>| #[trigger] ops.computes(m) implies mesh_values(
            mesh,
            m,
            ops.zero,
            ops.lowest,
            grid_braces(m, quad_cols as int, quad_rows as int, mesh.positions@, compliances),
            compliances,
        ) by {
            lemma_linked(m, skip_rows, skips@, placed, ops.dist, compliances.skip2);
            lemma_linked(m, cross_rows@, crosses@, placed, ops.dist, compliances.cross_diag);
        }
    }
    mesh
}

} // verus!
