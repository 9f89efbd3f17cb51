//! The finished mesh: constraints in batches, and the same constraints listed by particle.

use vstd::prelude::*;

use crate::mesh_prep::batches::{
    batches_right, divides, in_batch, partition_constraints_for_gs_batches, share,
};
use crate::mesh_prep::braces::{all_linked, link_pairs, links};
use crate::mesh_prep::mass::{inverse_masses, particle_inv_mass};
use crate::mesh_prep::neighbors::{ends_below, lists_right, neighbor_lists, Constraint};
use crate::mesh_prep::ops::{MeshModel, MeshOps};
use crate::mesh_prep::topology::{
    bend_pairs, bending_pairs, find_tri_neighbors, law_neighbor_shares_ends, law_neighbors_unique,
    lemma_bend_pairs_below, lemma_stretch_pairs_below, neighbors_of, neighbors_right, ordered,
    stretch_pairs, unique_edges, NO_NEIGHBOR,
};

verus! {

/// The compliances of the constraints, by what they are for.
#[derive(Clone, Copy)]
pub struct Compliances<S> {
    /// Triangle edges.
    pub stretch: S,
    /// The corners opposite to an edge that two triangles share.
    pub bend: S,
    /// Pairs two apart in a row or a column of a grid.
    pub skip2: S,
    /// The corners of a quad that its triangles do not connect.
    pub cross_diag: S,
}

/// A cloth mesh with everything that the solvers read.
#[derive(Clone, Debug)]
pub struct ClothMeshData<S> {
    pub positions: Vec<[S; 3]>,
    pub normals: Vec<[S; 3]>,
    pub uvs: Vec<[S; 2]>,
    pub indices: Vec<u32>,
    /// For each triangle edge, three per triangle, the number of its neighbor edge or
    /// [`NO_NEIGHBOR`].
    pub tri_edge_neighbors: Vec<u32>,
    pub inv_mass: Vec<S>,
    pub neighbor_other: Vec<u32>,
    pub neighbor_rest_len: Vec<S>,
    pub neighbor_compliance: Vec<S>,
    /// For each entry of `neighbor_other`, the number of the constraint.
    pub neighbor_constraint_id: Vec<u32>,
    pub neighbor_offsets: Vec<u32>,
    pub constraint_i: Vec<u32>,
    pub constraint_j: Vec<u32>,
    pub constraint_rest_len: Vec<S>,
    pub constraint_compliance: Vec<S>,
    /// Batch `b` holds the constraints `constraint_batch_offsets[b] .. constraint_batch_offsets[b + 1]`.
    pub constraint_batch_offsets: Vec<u32>,
    pub constraint_batch_count: u32,
    pub num_particles: u32,
    pub num_distance_constraints: u32,
    pub rest_positions: Vec<[S; 3]>,
}

impl<S> ClothMeshData<S> {
    /// The constraints.
    pub open spec fn rows(&self) -> Seq<Constraint<S>> {
        Seq::new(
            self.constraint_i@.len(),
            |k: int|
                Constraint {
                    i: self.constraint_i@[k],
                    j: self.constraint_j@[k],
                    rest: self.constraint_rest_len@[k],
                    compliance: self.constraint_compliance@[k],
                },
        )
    }

    /// The slices of the particles lie in all of the neighbor lists.
    pub open spec fn neighbors_sliced(&self) -> bool {
        &&& self.num_particles > 0 ==> self.num_particles < self.neighbor_offsets@.len()
        &&& forall|p: int|
            0 <= p < self.num_particles && #[trigger] self.neighbor_offsets@[p]
                < self.neighbor_offsets@[p + 1] ==> {
                &&& self.neighbor_offsets@[p + 1] <= self.neighbor_other@.len()
                &&& self.neighbor_offsets@[p + 1] <= self.neighbor_rest_len@.len()
                &&& self.neighbor_offsets@[p + 1] <= self.neighbor_compliance@.len()
                &&& self.neighbor_offsets@[p + 1] <= self.neighbor_constraint_id@.len()
            }
    }

    /// The tables agree with each other.
    pub open spec fn wf(&self) -> bool {
        let n = self.positions@.len();
        let c = self.constraint_i@.len();
        &&& self.num_particles == n
        &&& self.num_distance_constraints == c
        &&& self.rest_positions@.len() == n
        &&& self.inv_mass@.len() == n
        &&& self.constraint_j@.len() == c
        &&& self.constraint_rest_len@.len() == c
        &&& self.constraint_compliance@.len() == c
        &&& 2 * c <= u32::MAX
        &&& forall|k: int| 0 <= k < self.indices@.len() ==> #[trigger] self.indices@[k] < n
        &&& neighbors_right(self.indices@, self.tri_edge_neighbors@)
        &&& ends_below(self.rows(), n as int)
        &&& lists_right(
            self.rows(),
            n as int,
            self.neighbor_offsets@,
            self.neighbor_other@,
            self.neighbor_rest_len@,
            self.neighbor_compliance@,
            self.neighbor_constraint_id@,
        )
        &&& divides(self.constraint_batch_offsets@, c as int)
        &&& self.constraint_batch_count == self.constraint_batch_offsets@.len() - 1
        &&& batches_apart(self.rows(), self.constraint_batch_offsets@)
    }
}

impl<S> ClothMeshData<S> {
    /// Whether the slices of the particles lie in all of the neighbor lists.
    pub fn has_sliced_neighbors(&self) -> (r: bool)
        ensures
            r == self.neighbors_sliced(),
    {
        let n: usize = self.num_particles as usize;
        if n > 0 && n >= self.neighbor_offsets.len() {
            return false;
        }
        let mut p: usize = 0;
        while p < n
            invariant
                p <= n,
                n == self.num_particles,
                n > 0 ==> n < self.neighbor_offsets@.len(),
                forall|q: int|
                    0 <= q < p && #[trigger] self.neighbor_offsets@[q]
                        < self.neighbor_offsets@[q + 1] ==> {
                        &&& self.neighbor_offsets@[q + 1] <= self.neighbor_other@.len()
                        &&& self.neighbor_offsets@[q + 1] <= self.neighbor_rest_len@.len()
                        &&& self.neighbor_offsets@[q + 1] <= self.neighbor_compliance@.len()
                        &&& self.neighbor_offsets@[q + 1] <= self.neighbor_constraint_id@.len()
                    },
            decreases n - p,
        {
            let end: usize = self.neighbor_offsets[p + 1] as usize;
            if (self.neighbor_offsets[p] as usize) < end {
                if end > self.neighbor_other.len() || end > self.neighbor_rest_len.len() || end
                    > self.neighbor_compliance.len() || end > self.neighbor_constraint_id.len() {
                    return false;
                }
            }
            p = p + 1;
        }
        true
    }
}

/// The numbers of `n` particles as scalars, each with a zero beside it.
pub fn particle_ids<S: Copy, F: Fn(u32) -> S>(n: u32, zero: S, scalar: &F) -> (ids: Vec<[S; 2]>)
    requires
        forall|i: u32| #[trigger] scalar.requires((i,)),
    ensures
        ids@.len() == n,
        forall|k: int|
            0 <= k < n ==> scalar.ensures((k as u32,), (#[trigger] ids@[k])[0]) && ids@[k][1]
                == zero,
{
    let mut ids: Vec<[S; 2]> = Vec::new();
    let mut k: u32 = 0;
    while k < n
        invariant
            k <= n,
            ids@.len() == k,
            forall|i: u32| #[trigger] scalar.requires((i,)),
            forall|l: int|
                0 <= l < k ==> scalar.ensures((l as u32,), (#[trigger] ids@[l])[0]) && ids@[l][1]
                    == zero,
        decreases n - k,
    {
        let id = scalar(k);
        ids.push([id, zero]);
        k = k + 1;
    }
    ids
}

/// No two constraints of a batch share a particle.
pub open spec fn batches_apart<S>(rows: Seq<Constraint<S>>, offsets: Seq<u32>) -> bool {
    forall|b: int, k: int, l: int|
        #![trigger in_batch(offsets, b, k), in_batch(offsets, b, l)]
        0 <= b < offsets.len() - 1 && in_batch(offsets, b, k) && in_batch(offsets, b, l) && k < l
            ==> !share(rows[k], rows[l])
}

/// The constraints that connect the pairs.
pub open spec fn linked<S>(
    m: MeshModel<S>,
    pairs: Seq<(u32, u32)>,
    positions: Seq<[S; 3]>,
    compliance: S,
) -> Seq<Constraint<S>> {
    pairs.map_values(
        |p: (u32, u32)|
            Constraint {
                i: ordered(p.0, p.1).0,
                j: ordered(p.0, p.1).1,
                rest: (m.dist)(positions[p.0 as int], positions[p.1 as int]),
                compliance,
            },
    )
}

/// All constraints of a mesh, as they are found: triangle edges, hinges, and the given ones.
pub open spec fn collected<S>(
    m: MeshModel<S>,
    positions: Seq<[S; 3]>,
    indices: Seq<u32>,
    extras: Seq<Constraint<S>>,
    compliances: Compliances<S>,
) -> Seq<Constraint<S>> {
    linked(m, stretch_pairs(indices, neighbors_of(indices)), positions, compliances.stretch)
        + linked(m, bend_pairs(indices, neighbors_of(indices)), positions, compliances.bend)
        + extras
}

/// How many constraints a mesh has.
pub open spec fn constraint_count(indices: Seq<u32>, extras: int) -> int {
    stretch_pairs(indices, neighbors_of(indices)).len() + bend_pairs(
        indices,
        neighbors_of(indices),
    ).len() + extras
}

/// `rows` in the given order.
pub open spec fn reordered<S>(rows: Seq<Constraint<S>>, order: Seq<u32>) -> Seq<Constraint<S>> {
    order.map_values(|e: u32| rows[e as int])
}

/// `sorted` holds `rows` batch by batch.
pub open spec fn in_batches<S>(
    rows: Seq<Constraint<S>>,
    sorted: Seq<Constraint<S>>,
    offsets: Seq<u32>,
) -> bool {
    exists|order: Seq<u32>| #[trigger]
        batches_right(rows, order, offsets) && sorted == reordered(rows, order)
}

/// The parts of the mesh that arithmetic goes into.
pub open spec fn mesh_values<S>(
    mesh: ClothMeshData<S>,
    m: MeshModel<S>,
    zero: S,
    lowest: S,
    extras: Seq<Constraint<S>>,
    compliances: Compliances<S>,
) -> bool {
    &&& in_batches(
        collected(m, mesh.positions@, mesh.indices@, extras, compliances),
        mesh.rows(),
        mesh.constraint_batch_offsets@,
    )
    &&& forall|p: int|
        0 <= p < mesh.inv_mass@.len() ==> #[trigger] mesh.inv_mass@[p] == particle_inv_mass(
            m,
            zero,
            lowest,
            mesh.positions@,
            mesh.indices@,
            p,
        )
}

pub proof fn lemma_linked<S, D: Fn([S; 3], [S; 3]) -> S>(
    m: MeshModel<S>,
    rows: Seq<Constraint<S>>,
    pairs: Seq<(u32, u32)>,
    positions: Seq<[S; 3]>,
    dist: D,
    compliance: S,
)
    requires
        all_linked(rows, pairs, positions, dist, compliance),
        forall|a: [S; 3], b: [S; 3], r: S| #[trigger]
            dist.ensures((a, b), r) ==> r == (m.dist)(a, b),
    ensures
        rows == linked(m, pairs, positions, compliance),
{
    let l = linked(m, pairs, positions, compliance);
    assert forall|k: int| 0 <= k < rows.len() implies rows[k] == l[k] by {
        assert(links(rows[k], pairs[k], positions, dist, compliance));
    }
    assert(rows =~= l);
}

/// A copy of a list.
pub fn copied<T: Copy>(v: &[T]) -> (r: Vec<T>)
    ensures
        r@ == v@,
{
    let mut r: Vec<T> = Vec::new();
    let mut k: usize = 0;
    while k < v.len()
        invariant
            k <= v@.len(),
            r@ == v@.take(k as int),
        decreases v@.len() - k,
    {
        r.push(v[k]);
        assert(r@ =~= v@.take(k + 1));
        k = k + 1;
    }
    assert(r@ =~= v@);
    r
}

/// Appends `more`.
pub fn append_rows<S: Copy>(rows: &mut Vec<Constraint<S>>, more: &[Constraint<S>])
    ensures
        final(rows)@ == old(rows)@ + more@,
{
    let ghost before = rows@;
    let mut k: usize = 0;
    while k < more.len()
        invariant
            k <= more@.len(),
            rows@ == before + more@.take(k as int),
        decreases more@.len() - k,
    {
        rows.push(more[k]);
        assert(rows@ =~= before + more@.take(k + 1));
        k = k + 1;
    }
    assert(rows@ =~= before + more@);
}

/// All constraints of a mesh, as they are found.
pub fn collect_constraints<S: Copy, D: Fn([S; 3], [S; 3]) -> S>(
    positions: &[[S; 3]],
    indices: &[u32],
    neighbors: &[u32],
    extras: &[Constraint<S>],
    dist: &D,
    compliances: Compliances<S>,
) -> (rows: Vec<Constraint<S>>)
    requires
        forall|k: int| 0 <= k < indices@.len() ==> #[trigger] indices@[k] < positions@.len(),
        neighbors_right(indices@, neighbors@),
        ends_below(extras@, positions@.len() as int),
        forall|a: [S; 3], b: [S; 3]| #[trigger] dist.requires((a, b)),
    ensures
        rows@.len() == constraint_count(indices@, extras@.len() as int),
        ends_below(rows@, positions@.len() as int),
        forall|m: MeshModel<S>|
            (forall|a: [S; 3], b: [S; 3], r: S| #[trigger]
                dist.ensures((a, b), r) ==> r == (m.dist)(a, b)) ==> rows@ == #[trigger] collected(
                m,
                positions@,
                indices@,
                extras@,
                compliances,
            ),
{
    proof {
        law_neighbors_unique(indices@, neighbors@);
        lemma_stretch_pairs_below(indices@, neighbors@, positions@.len() as int);
        lemma_bend_pairs_below(indices@, neighbors@, positions@.len() as int);
        assert forall|e: int| 0 <= e < neighbors@.len() implies #[trigger] neighbors@[e]
            == NO_NEIGHBOR || neighbors@[e] < neighbors@.len() by {
            if neighbors@[e] != NO_NEIGHBOR {
                law_neighbor_shares_ends(indices@, neighbors@, e);
            }
        }
    }
    let stretch = unique_edges(indices, neighbors);
    let bend = bending_pairs(indices, neighbors);
    let mut rows = link_pairs(stretch.as_slice(), positions, dist, compliances.stretch);
    let ghost rows1 = rows@;
    let bend_rows = link_pairs(bend.as_slice(), positions, dist, compliances.bend);
    append_rows(&mut rows, bend_rows.as_slice());
    append_rows(&mut rows, extras);
    proof {
        assert forall|e: int| 0 <= e < rows@.len() implies (#[trigger] rows@[e]).i
            < positions@.len() && rows@[e].j < positions@.len() by {
            if e < rows1.len() {
                assert(rows@[e] == rows1[e]);
                assert(links(rows1[e], stretch@[e], positions@, *dist, compliances.stretch));
            } else if e < rows1.len() + bend_rows@.len() {
                let k = e - rows1.len();
                assert(rows@[e] == bend_rows@[k]);
                assert(links(bend_rows@[k], bend@[k], positions@, *dist, compliances.bend));
            } else {
                assert(rows@[e] == extras@[e - rows1.len() - bend_rows@.len()]);
            }
        }
        assert forall|m: MeshModel<S>|
            (forall|a: [S; 3], b: [S; 3], r: S| #[trigger]
                dist.ensures((a, b), r) ==> r == (m.dist)(a, b)) implies rows@
            == #[trigger] collected(m, positions@, indices@, extras@, compliances) by {
            lemma_linked(m, rows1, stretch@, positions@, *dist, compliances.stretch);
            lemma_linked(m, bend_rows@, bend@, positions@, *dist, compliances.bend);
        }
    }
    rows
}

/// Takes the rows in the given order.
fn reorder<S: Copy>(rows: &[Constraint<S>], order: &[u32]) -> (r: Vec<Constraint<S>>)
    requires
        forall|k: int| 0 <= k < order@.len() ==> #[trigger] order@[k] < rows@.len(),
    ensures
        r@ == reordered(rows@, order@),
{
    let mut r: Vec<Constraint<S>> = Vec::new();
    let mut k: usize = 0;
    while k < order.len()
        invariant
            k <= order@.len(),
            forall|k: int| 0 <= k < order@.len() ==> #[trigger] order@[k] < rows@.len(),
            r@ == reordered(rows@, order@).take(k as int),
        decreases order@.len() - k,
    {
        assert(order@[k as int] < rows@.len());
        r.push(rows[order[k] as usize]);
        assert(r@ =~= reordered(rows@, order@).take(k + 1));
        k = k + 1;
    }
    assert(r@ =~= reordered(rows@, order@));
    r
}

/// Finds the constraints of a triangle mesh beside the given ones, sorts them into batches, lists
/// them by particle, and gathers the inverse masses.
pub fn finalize_cloth_mesh<
    S: Copy,
    D: Fn([S; 3], [S; 3]) -> S,
    W: Fn([S; 3], [S; 3], [S; 3]) -> S,
    A: Fn(S, S) -> S,
    M: Fn(S, S) -> S,
    T: Fn(S, S) -> bool,
    L: Fn(S, S) -> bool,
    F: Fn(S, S) -> bool,
    N: Fn(S, S) -> bool,
>(
    positions: Vec<[S; 3]>,
    normals: Vec<[S; 3]>,
    uvs: Vec<[S; 2]>,
    indices: Vec<u32>,
    extra_constraints: &[Constraint<S>],
    compliances: Compliances<S>,
    ops: &MeshOps<S, D, W, A, M, T, L, F, N>,
) -> (mesh: ClothMeshData<S>)
    requires
        ops.total(),
        positions@.len() < u32::MAX,
        indices@.len() <= u32::MAX,
        forall|k: int| 0 <= k < indices@.len() ==> #[trigger] indices@[k] < positions@.len(),
        ends_below(extra_constraints@, positions@.len() as int),
        2 * constraint_count(indices@, extra_constraints@.len() as int) <= u32::MAX,
    ensures
        mesh.wf(),
        mesh.positions@ == positions@,
        mesh.rest_positions@ == positions@,
        mesh.normals@ == normals@,
        mesh.uvs@ == uvs@,
        mesh.indices@ == indices@,
        forall|m: MeshModel<S>| #[trigger]
            ops.computes(m) ==> mesh_values(
                mesh,
                m,
                ops.zero,
                ops.lowest,
                extra_constraints@,
                compliances,
            ),
{
    let n: usize = positions.len();
    let inv_mass = inverse_masses(positions.as_slice(), indices.as_slice(), ops);
    let tri_edge_neighbors = find_tri_neighbors(indices.as_slice());
    let rest_positions = copied(positions.as_slice());
    let found = collect_constraints(
        positions.as_slice(),
        indices.as_slice(),
        tri_edge_neighbors.as_slice(),
        extra_constraints,
        &ops.dist,
        compliances,
    );
    let batches = partition_constraints_for_gs_batches(found.as_slice(), n);
    let constraints = reorder(found.as_slice(), batches.order.as_slice());
    proof {
        assert forall|e: int| 0 <= e < constraints@.len() implies (#[trigger] constraints@[e]).i < n
            && constraints@[e].j < n by {
            assert(batches.order@[e] < found@.len());
            assert(found@[batches.order@[e] as int].i < n);
        }
    }
    let lists = neighbor_lists(n, constraints.as_slice(), ops.zero);
    let mut constraint_i: Vec<u32> = Vec::new();
    let mut constraint_j: Vec<u32> = Vec::new();
    let mut constraint_rest_len: Vec<S> = Vec::new();
    let mut constraint_compliance: Vec<S> = Vec::new();
    let mut e: usize = 0;
    while e < constraints.len()
        invariant
            e <= constraints@.len(),
            constraint_i@.len() == e,
            constraint_j@.len() == e,
            constraint_rest_len@.len() == e,
            constraint_compliance@.len() == e,
            forall|k: int|
                0 <= k < e ==> #[trigger] constraints@[k] == (Constraint {
                    i: constraint_i@[k],
                    j: constraint_j@[k],
                    rest: constraint_rest_len@[k],
                    compliance: constraint_compliance@[k],
                }),
        decreases constraints@.len() - e,
    {
        let row = constraints[e];
        constraint_i.push(row.i);
        constraint_j.push(row.j);
        constraint_rest_len.push(row.rest);
        constraint_compliance.push(row.compliance);
        e = e + 1;
    }
    let offsets = batches.offsets;
    proof {
        lemma_few_batches(offsets@, found@.len() as int);
    }
    let mesh = ClothMeshData {
        num_particles: n as u32,
        num_distance_constraints: constraints.len() as u32,
        constraint_batch_count: (offsets.len() - 1) as u32,
        positions,
        normals,
        uvs,
        indices,
        tri_edge_neighbors,
        inv_mass,
        neighbor_other: lists.other,
        neighbor_rest_len: lists.rest_len,
        neighbor_compliance: lists.compliance,
        neighbor_constraint_id: lists.constraint_id,
        neighbor_offsets: lists.offsets,
        constraint_i,
        constraint_j,
        constraint_rest_len,
        constraint_compliance,
        constraint_batch_offsets: offsets,
        rest_positions,
    };
    proof {
        assert(mesh.rows() =~= constraints@);
        lemma_reordered_apart(found@, batches.order@, offsets@);
        assert forall|m: MeshModel<S>| #[trigger] ops.computes(m) implies mesh_values(
            mesh,
            m,
            ops.zero,
            ops.lowest,
            extra_constraints@,
            compliances,
        ) by {
            assert(found@ == collected(
                m,
                mesh.positions@,
                mesh.indices@,
                extra_constraints@,
                compliances,
            ));
            assert(batches_right(found@, batches.order@, offsets@));
        }
    }
    mesh
}

proof fn lemma_few_batches(offsets: Seq<u32>, m: int)
    requires
        divides(offsets, m),
    ensures
        offsets.len() - 1 <= m,
{
    lemma_offset_grows(offsets, m, offsets.len() - 1);
}

proof fn lemma_offset_grows(offsets: Seq<u32>, m: int, b: int)
    requires
        divides(offsets, m),
        0 <= b < offsets.len(),
    ensures
        offsets[b] >= b,
    decreases b,
{
    if b > 0 {
        lemma_offset_grows(offsets, m, b - 1);
        assert(offsets[b - 1] < offsets[b]);
    }
}

proof fn lemma_reordered_apart<S>(rows: Seq<Constraint<S>>, order: Seq<u32>, offsets: Seq<u32>)
    requires
        batches_right(rows, order, offsets),
    ensures
        batches_apart(reordered(rows, order), offsets),
{
    let sorted = reordered(rows, order);
    assert forall|b: int, k: int, l: int|
        #![trigger in_batch(offsets, b, k), in_batch(offsets, b, l)]
        0 <= b < offsets.len() - 1 && in_batch(offsets, b, k) && in_batch(offsets, b, l) && k
            < l implies !share(sorted[k], sorted[l]) by {
        if b + 1 < offsets.len() - 1 {
            assert(offsets[b + 1] < offsets[offsets.len() - 1]);
        }
    }
}

} // verus!
