//! Inverse masses of the particles.

use vstd::prelude::*;

use crate::mesh_prep::neighbors::filled;
use crate::mesh_prep::ops::{MeshModel, MeshOps};

verus! {

/// What the triangle of corner `c` gives to each of its corners.
pub open spec fn triangle_share<S>(
    m: MeshModel<S>,
    positions: Seq<[S; 3]>,
    indices: Seq<u32>,
    c: int,
) -> S {
    let t = 3 * (c / 3);
    (m.mass_share)(
        positions[indices[t] as int],
        positions[indices[t + 1] as int],
        positions[indices[t + 2] as int],
    )
}

/// The sum of what the triangles give to particle `p` at their first `c` corners.
pub open spec fn gathered_mass<S>(
    m: MeshModel<S>,
    zero: S,
    positions: Seq<[S; 3]>,
    indices: Seq<u32>,
    p: int,
    c: int,
) -> S
    decreases c,
{
    if c <= 0 {
        zero
    } else {
        let before = gathered_mass(m, zero, positions, indices, p, c - 1);
        if indices[c - 1] == p {
            (m.plus)(before, triangle_share(m, positions, indices, c - 1))
        } else {
            before
        }
    }
}

/// The largest height of the first `k` particles.
pub open spec fn top_height<S>(m: MeshModel<S>, lowest: S, positions: Seq<[S; 3]>, k: int) -> S
    decreases k,
{
    if k <= 0 {
        lowest
    } else {
        (m.larger)(top_height(m, lowest, positions, k - 1), positions[k - 1][1])
    }
}

/// Particle `p` is on the top boundary.
pub open spec fn is_pinned<S>(
    m: MeshModel<S>,
    lowest: S,
    positions: Seq<[S; 3]>,
    p: int,
) -> bool {
    (m.at_top)(positions[p][1], top_height(m, lowest, positions, positions.len() as int))
}

/// The inverse mass of particle `p`: zero on the top boundary, else what the triangles give.
pub open spec fn particle_inv_mass<S>(
    m: MeshModel<S>,
    zero: S,
    lowest: S,
    positions: Seq<[S; 3]>,
    indices: Seq<u32>,
    p: int,
) -> S {
    if is_pinned(m, lowest, positions, p) {
        zero
    } else {
        gathered_mass(m, zero, positions, indices, p, 3 * (indices.len() as int / 3))
    }
}

/// Gathers the inverse masses, and pins the top boundary.
pub fn inverse_masses<
    S: Copy,
    D: Fn([S; 3], [S; 3]) -> S,
    W: Fn([S; 3], [S; 3], [S; 3]) -> S,
    A: Fn(S, S) -> S,
    M: Fn(S, S) -> S,
    T: Fn(S, S) -> bool,
    L: Fn(S, S) -> bool,
    F: Fn(S, S) -> bool,
    N: Fn(S, S) -> bool,
>(
    positions: &[[S; 3]],
    indices: &[u32],
    ops: &MeshOps<S, D, W, A, M, T, L, F, N>,
) -> (r: Vec<S>)
    requires
        ops.total(),
        forall|k: int| 0 <= k < indices@.len() ==> #[trigger] indices@[k] < positions@.len(),
    ensures
        r@.len() == positions@.len(),
        forall|m: MeshModel<S>| #[trigger]
            ops.computes(m) ==> forall|p: int|
                0 <= p < r@.len() ==> #[trigger] r@[p] == particle_inv_mass(
                    m,
                    ops.zero,
                    ops.lowest,
                    positions@,
                    indices@,
                    p,
                ),
{
    let n: usize = positions.len();
    let mut r: Vec<S> = filled(ops.zero, n);
    let corners: usize = 3 * (indices.len() / 3);
    let mut c: usize = 0;
    while c < corners
        invariant
            c <= corners,
            c % 3 == 0,
            corners % 3 == 0,
            corners <= indices@.len(),
            n == positions@.len(),
            ops.total(),
            forall|k: int| 0 <= k < indices@.len() ==> #[trigger] indices@[k] < positions@.len(),
            r@.len() == n,
            forall|m: MeshModel<S>| #[trigger]
                ops.computes(m) ==> forall|p: int|
                    0 <= p < n ==> #[trigger] r@[p] == gathered_mass(
                        m,
                        ops.zero,
                        positions@,
                        indices@,
                        p,
                        c as int,
                    ),
        decreases corners - c,
    {
        let id0: usize = indices[c] as usize;
        let id1: usize = indices[c + 1] as usize;
        let id2: usize = indices[c + 2] as usize;
        let given = (ops.mass_share)(positions[id0], positions[id1], positions[id2]);
        let ghost r0 = r@;
        let m0 = (ops.plus)(r[id0], given);
        r[id0] = m0;
        let ghost r1 = r@;
        let m1 = (ops.plus)(r[id1], given);
        r[id1] = m1;
        let ghost r2 = r@;
        let m2 = (ops.plus)(r[id2], given);
        r[id2] = m2;
        proof {
            assert forall|m: MeshModel<S>| #[trigger] ops.computes(m) implies forall|p: int|
                0 <= p < n ==> #[trigger] r@[p] == gathered_mass(
                    m,
                    ops.zero,
                    positions@,
                    indices@,
                    p,
                    c + 3,
                ) by {
                assert(3 * (c as int / 3) == c && 3 * ((c + 1) / 3) == c && 3 * ((c + 2) / 3) == c);
                assert forall|p: int| 0 <= p < n implies #[trigger] r@[p] == gathered_mass(
                    m,
                    ops.zero,
                    positions@,
                    indices@,
                    p,
                    c + 3,
                ) by {
                    assert(r0[p] == gathered_mass(
                        m,
                        ops.zero,
                        positions@,
                        indices@,
                        p,
                        c as int,
                    ));
                    assert(r1[p] == gathered_mass(m, ops.zero, positions@, indices@, p, c + 1));
                    assert(r2[p] == gathered_mass(m, ops.zero, positions@, indices@, p, c + 2));
                }
            }
        }
        c = c + 3;
    }
    let mut top = ops.lowest;
    let mut k: usize = 0;
    while k < n
        invariant
            k <= n,
            n == positions@.len(),
            ops.total(),
            forall|m: MeshModel<S>| #[trigger]
                ops.computes(m) ==> top == top_height(m, ops.lowest, positions@, k as int),
        decreases n - k,
    {
        top = (ops.larger)(top, positions[k][1]);
        k = k + 1;
    }
    let mut k: usize = 0;
    while k < n
        invariant
            k <= n,
            n == positions@.len(),
            corners == 3 * (indices@.len() as int / 3),
            r@.len() == n,
            ops.total(),
            forall|m: MeshModel<S>| #[trigger]
                ops.computes(m) ==> top == top_height(m, ops.lowest, positions@, n as int),
            forall|m: MeshModel<S>| #[trigger]
                ops.computes(m) ==> forall|p: int|
                    0 <= p < n ==> #[trigger] r@[p] == if p < k {
                        particle_inv_mass(m, ops.zero, ops.lowest, positions@, indices@, p)
                    } else {
                        gathered_mass(m, ops.zero, positions@, indices@, p, corners as int)
                    },
        decreases n - k,
    {
        if (ops.at_top)(positions[k][1], top) {
            r[k] = ops.zero;
        }
        k = k + 1;
    }
    r
}

} // verus!
