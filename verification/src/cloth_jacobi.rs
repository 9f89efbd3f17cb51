//! The Jacobi solver as the host drives it.
//!
//! An iteration reads positions from one buffer and writes them to another, A and B in turn.

use vstd::prelude::*;

use crate::cloth_compute::{ClothSimConfig, ClothSimControl};
use crate::device::{
    gs_slots, gs_slots_spec, jacobi_slots, jacobi_slots_spec, ClothBuffer, Slot, Solver,
};
use crate::frame::{
    at_least_one, frame, frame_commands, group_count, groups, push_run, run, Binding, Command,
    FrameShape, Kernel, Pass,
};
use crate::frame_laws::{
    collision_count, collision_dispatches, dispatches, law_frame_dispatches, lemma_dispatches_add,
    lemma_dispatches_one, lemma_dispatches_run,
};
use crate::mesh_prep::cloth_mesh::ClothMeshData;
use crate::mesh_prep::laws::{law_constraint_in_both_slices, law_slices_match_constraints};
use crate::mesh_prep::neighbors::{half_edges_below, lemma_below_all, Constraint};

verus! {

/// Iterations of a substep, unless set otherwise.
pub fn jacobi_default_inner_iters() -> (r: u32)
    ensures
        r == 22,
{
    22
}

/// The entries from `s` up to `e`; none where `e` is not above `s`.
pub open spec fn slice_entries(s: int, e: int) -> Seq<int> {
    Seq::new(
        (if s < e {
            e - s
        } else {
            0
        }) as nat,
        |k: int| s + k,
    )
}

/// The entries of the neighbor lists that belong to the first `n` particles, slice by slice.
pub open spec fn listed_entries(offsets: Seq<u32>, n: int) -> Seq<int>
    decreases n,
{
    if n <= 0 {
        seq![]
    } else {
        listed_entries(offsets, n - 1) + slice_entries(offsets[n - 1] as int, offsets[n] as int)
    }
}

/// `row` holds entry `e` of the neighbor lists: the other end, the rest length, the compliance and
/// the number of the constraint.
pub open spec fn packs_entry<S, F: Fn(u32) -> S>(
    mesh: ClothMeshData<S>,
    row: [S; 4],
    e: int,
    scalar: F,
) -> bool {
    &&& scalar.ensures((mesh.neighbor_other@[e],), row[0])
    &&& row[1] == mesh.neighbor_rest_len@[e]
    &&& row[2] == mesh.neighbor_compliance@[e]
    &&& scalar.ensures((mesh.neighbor_constraint_id@[e],), row[3])
}

/// `packed` has a row for each of the `entries`.
pub open spec fn packs_entries<S, F: Fn(u32) -> S>(
    mesh: ClothMeshData<S>,
    packed: Seq<[S; 4]>,
    entries: Seq<int>,
    scalar: F,
) -> bool {
    &&& packed.len() == entries.len()
    &&& forall|k: int|
        0 <= k < packed.len() ==> packs_entry(mesh, #[trigger] packed[k], entries[k], scalar)
}

/// `packed` has a row for each entry of the neighbor lists that belongs to a particle.
pub open spec fn packed_right<S, F: Fn(u32) -> S>(
    mesh: ClothMeshData<S>,
    packed: Seq<[S; 4]>,
    scalar: F,
) -> bool {
    packs_entries(
        mesh,
        packed,
        listed_entries(mesh.neighbor_offsets@, mesh.num_particles as int),
        scalar,
    )
}

/// The neighbor lists with one row for each entry, particle by particle; `scalar` makes a scalar of
/// an index.
pub fn pack_neighbor_gpu<S: Copy, F: Fn(u32) -> S>(mesh: &ClothMeshData<S>, scalar: &F) -> (packed:
    Vec<[S; 4]>)
    requires
        mesh.neighbors_sliced(),
        forall|i: u32| #[trigger] scalar.requires((i,)),
    ensures
        packed_right(*mesh, packed@, *scalar),
{
    let n: usize = mesh.num_particles as usize;
    let mut packed: Vec<[S; 4]> = Vec::new();
    let mut p: usize = 0;
    while p < n
        invariant
            p <= n,
            n == mesh.num_particles,
            mesh.neighbors_sliced(),
            forall|i: u32| #[trigger] scalar.requires((i,)),
            packs_entries(
                *mesh,
                packed@,
                listed_entries(mesh.neighbor_offsets@, p as int),
                *scalar,
            ),
        decreases n - p,
    {
        let s: usize = mesh.neighbor_offsets[p] as usize;
        let e: usize = mesh.neighbor_offsets[p + 1] as usize;
        let ghost before = listed_entries(mesh.neighbor_offsets@, p as int);
        let mut k: usize = s;
        assert(before + slice_entries(s as int, s as int) =~= before);
        while k < e
            invariant
                s <= k,
                s < e ==> k <= e,
                s >= e ==> k == s,
                s < e ==> {
                    &&& e <= mesh.neighbor_other@.len()
                    &&& e <= mesh.neighbor_rest_len@.len()
                    &&& e <= mesh.neighbor_compliance@.len()
                    &&& e <= mesh.neighbor_constraint_id@.len()
                },
                forall|i: u32| #[trigger] scalar.requires((i,)),
                packs_entries(
                    *mesh,
                    packed@,
                    before + slice_entries(s as int, k as int),
                    *scalar,
                ),
            decreases e - k,
        {
            let other = scalar(mesh.neighbor_other[k]);
            let id = scalar(mesh.neighbor_constraint_id[k]);
            packed.push([other, mesh.neighbor_rest_len[k], mesh.neighbor_compliance[k], id]);
            proof {
                let entries = before + slice_entries(s as int, k as int);
                assert(before + slice_entries(s as int, k + 1) =~= entries.push(k as int));
            }
            k = k + 1;
        }
        proof {
            assert(slice_entries(s as int, k as int) =~= slice_entries(s as int, e as int));
        }
        p = p + 1;
    }
    packed
}

proof fn lemma_entries_of_lists<S>(rows: Seq<Constraint<S>>, offsets: Seq<u32>, n: int, p: int)
    requires
        0 <= p <= n < offsets.len(),
        forall|q: int|
            0 <= q <= n ==> #[trigger] offsets[q] == half_edges_below(rows, q, 2 * rows.len() as int),
    ensures
        listed_entries(offsets, p) == Seq::new(offsets[p] as nat, |k: int| k),
        forall|q: int| 0 <= q <= p ==> #[trigger] offsets[q] <= offsets[p],
    decreases p,
{
    if p > 0 {
        lemma_entries_of_lists(rows, offsets, n, p - 1);
        assert(offsets[p - 1] <= offsets[p]);
    } else {
        assert(offsets[0] == half_edges_below(rows, 0, 2 * rows.len() as int));
    }
    assert(listed_entries(offsets, p) =~= Seq::new(offsets[p] as nat, |k: int| k));
}

/// The slices of a mesh whose tables agree cover the neighbor lists: packing takes every entry, in
/// order.
pub proof fn law_packing_takes_every_entry<S>(mesh: ClothMeshData<S>)
    requires
        mesh.wf(),
    ensures
        mesh.neighbors_sliced(),
        listed_entries(mesh.neighbor_offsets@, mesh.num_particles as int) == Seq::new(
            mesh.neighbor_other@.len(),
            |k: int| k,
        ),
{
    let rows = mesh.rows();
    let n = mesh.positions@.len() as int;
    let offsets = mesh.neighbor_offsets@;
    lemma_entries_of_lists(rows, offsets, n, n);
    lemma_below_all(rows, n, 2 * rows.len() as int);
    assert(offsets[n] == half_edges_below(rows, n, 2 * rows.len() as int));
    assert forall|p: int| 0 <= p < n && #[trigger] offsets[p] < offsets[p + 1] implies offsets[p + 1]
        <= mesh.neighbor_other@.len() by {
        assert(offsets[p + 1] <= offsets[n]);
    }
}

/// Each constraint is packed in the slices of both its ends: a row holds the other end, the rest
/// length, the compliance and the number of the constraint, in this order.
pub proof fn law_constraint_is_packed<S, F: Fn(u32) -> S>(
    mesh: ClothMeshData<S>,
    packed: Seq<[S; 4]>,
    scalar: F,
    e: int,
) -> (r: (int, int))
    requires
        mesh.wf(),
        packed_right(mesh, packed, scalar),
        0 <= e < mesh.num_distance_constraints,
    ensures
        mesh.neighbor_offsets@[mesh.constraint_i@[e] as int] <= r.0
            < mesh.neighbor_offsets@[mesh.constraint_i@[e] + 1],
        mesh.neighbor_offsets@[mesh.constraint_j@[e] as int] <= r.1
            < mesh.neighbor_offsets@[mesh.constraint_j@[e] + 1],
        0 <= r.0 < packed.len() && 0 <= r.1 < packed.len(),
        scalar.ensures((mesh.constraint_j@[e],), packed[r.0][0]),
        scalar.ensures((mesh.constraint_i@[e],), packed[r.1][0]),
        packed[r.0][1] == mesh.constraint_rest_len@[e],
        packed[r.1][1] == mesh.constraint_rest_len@[e],
        packed[r.0][2] == mesh.constraint_compliance@[e],
        packed[r.1][2] == mesh.constraint_compliance@[e],
        scalar.ensures((e as u32,), packed[r.0][3]),
        scalar.ensures((e as u32,), packed[r.1][3]),
{
    law_packing_takes_every_entry(mesh);
    let (a, b) = law_constraint_in_both_slices(mesh, e);
    let (i, j) = (mesh.constraint_i@[e] as int, mesh.constraint_j@[e] as int);
    assert(mesh.rows()[e].i < mesh.num_particles && mesh.rows()[e].j < mesh.num_particles);
    law_slices_match_constraints(mesh, i, a);
    law_slices_match_constraints(mesh, j, b);
    assert(packs_entry(mesh, packed[a], a, scalar));
    assert(packs_entry(mesh, packed[b], b, scalar));
    (a, b)
}

/// The buffer that a binding reads positions from.
pub open spec fn reads_from(b: Binding) -> ClothBuffer {
    match b {
        Binding::JacBToA | Binding::CopyFromB => ClothBuffer::JacB,
        _ => ClothBuffer::JacA,
    }
}

/// The buffer that a binding writes positions to.
pub open spec fn writes_to(b: Binding) -> ClothBuffer {
    match b {
        Binding::JacBToA | Binding::CopyFromB => ClothBuffer::JacA,
        _ => ClothBuffer::JacB,
    }
}

/// The slots of a binding.
pub fn binding_slots(b: Binding) -> (r: Vec<Slot>)
    ensures
        r@ == if b is Cloth {
            gs_slots_spec()
        } else {
            jacobi_slots_spec(reads_from(b), writes_to(b))
        },
{
    match b {
        Binding::Cloth(_) => gs_slots(),
        Binding::JacBToA | Binding::CopyFromB => jacobi_slots(ClothBuffer::JacB, ClothBuffer::JacA),
        _ => jacobi_slots(ClothBuffer::JacA, ClothBuffer::JacB),
    }
}

/// The bindings of a solver.
pub open spec fn solver_bindings_spec(solver: Solver) -> Seq<Binding> {
    match solver {
        Solver::GaussSeidel => seq![Binding::Cloth(0)],
        Solver::Jacobi => seq![
            Binding::Base,
            Binding::JacBToA,
            Binding::JacAToB,
            Binding::CopyFromA,
            Binding::CopyFromB,
        ],
    }
}

/// The bindings of a solver.
pub fn solver_bindings(solver: Solver) -> (r: Vec<Binding>)
    ensures
        r@ == solver_bindings_spec(solver),
{
    match solver {
        Solver::GaussSeidel => {
            let r: Vec<Binding> = vec![Binding::Cloth(0)];
            assert(r@ =~= solver_bindings_spec(solver));
            r
        },
        Solver::Jacobi => {
            let r: Vec<Binding> = vec![
                Binding::Base,
                Binding::JacBToA,
                Binding::JacAToB,
                Binding::CopyFromA,
                Binding::CopyFromB,
            ];
            assert(r@ =~= solver_bindings_spec(solver));
            r
        },
    }
}

/// The binding of iteration `k`.
pub open spec fn iteration_binding(k: int) -> Binding {
    if k % 2 == 0 {
        Binding::JacBToA
    } else {
        Binding::JacAToB
    }
}

/// One iteration over the constraints.
pub open spec fn jacobi_iteration(f: FrameShape, k: int) -> Seq<Command> {
    let wg = groups(f.num_distance_constraints as int, 64);
    seq![Command::Bind(iteration_binding(k))] + run(Kernel::ClearConstraintLambda, wg) + run(
        Kernel::JacobiEdges,
        wg,
    ) + run(Kernel::JacobiGather, f.wg64())
}

/// The first `k` iterations over the constraints.
pub open spec fn jacobi_iterations(f: FrameShape, k: int) -> Seq<Command>
    decreases k,
{
    if k <= 0 {
        seq![]
    } else {
        jacobi_iterations(f, k - 1) + jacobi_iteration(f, k - 1)
    }
}

/// Solves the constraints of one substep, all iterations in one pass.
pub open spec fn jacobi_distance(f: FrameShape) -> Seq<Command> {
    if f.num_distance_constraints > 0 {
        seq![Command::BeginPass(Pass::DistanceJacobi)] + jacobi_iterations(
            f,
            at_least_one(f.inner_iterations) as int,
        ) + seq![Command::EndPass]
    } else {
        seq![]
    }
}

/// The binding that the solved positions are taken over with: from B after an even number of
/// iterations, and where there is nothing to solve, so that the prediction is the last.
pub open spec fn copy_binding(f: FrameShape) -> Binding {
    if f.num_distance_constraints == 0 || at_least_one(f.inner_iterations) % 2 == 0 {
        Binding::CopyFromB
    } else {
        Binding::CopyFromA
    }
}

/// The buffer with the positions after `k` iterations: the prediction is in B, and each iteration
/// writes where its binding says.
pub open spec fn solved_in(k: int) -> ClothBuffer {
    if k <= 0 {
        writes_to(Binding::Base)
    } else {
        writes_to(iteration_binding(k - 1))
    }
}

/// Each iteration reads what the one before wrote, the first one the prediction.
pub proof fn law_iterations_alternate(k: int)
    requires
        0 <= k,
    ensures
        reads_from(iteration_binding(k)) == solved_in(k),
        writes_to(iteration_binding(k)) == solved_in(k + 1),
        reads_from(iteration_binding(k)) != writes_to(iteration_binding(k)),
{
}

/// The positions that are taken over are those that a substep wrote last: of the last iteration
/// where there are constraints, of the prediction where there are none.
pub proof fn law_last_iteration_is_taken_over(f: FrameShape)
    ensures
        reads_from(copy_binding(f)) == solved_in(
            if f.num_distance_constraints > 0 {
                at_least_one(f.inner_iterations) as int
            } else {
                0
            },
        ),
{
}

/// The commands that solve the constraints of one substep.
pub fn jacobi_distance_commands(f: FrameShape) -> (out: Vec<Command>)
    requires
        f.fits(),
    ensures
        out@ == jacobi_distance(f),
{
    let mut out: Vec<Command> = Vec::new();
    if f.num_distance_constraints == 0 {
        assert(out@ =~= jacobi_distance(f));
        return out;
    }
    let inner: u32 = if f.inner_iterations == 0 {
        1
    } else {
        f.inner_iterations
    };
    let wg: u32 = group_count(f.num_distance_constraints, 64);
    let wg64: u32 = group_count(f.num_particles, 64);
    out.push(Command::BeginPass(Pass::DistanceJacobi));
    let ghost first = seq![Command::BeginPass(Pass::DistanceJacobi)];
    assert(out@ =~= first + jacobi_iterations(f, 0));
    let mut k: u32 = 0;
    while k < inner
        invariant
            k <= inner,
            wg == groups(f.num_distance_constraints as int, 64),
            wg64 == f.wg64(),
            out@ == first + jacobi_iterations(f, k as int),
        decreases inner - k,
    {
        let ghost so_far = out@;
        out.push(
            Command::Bind(
                if k % 2 == 0 {
                    Binding::JacBToA
                } else {
                    Binding::JacAToB
                },
            ),
        );
        push_run(&mut out, Kernel::ClearConstraintLambda, wg);
        push_run(&mut out, Kernel::JacobiEdges, wg);
        push_run(&mut out, Kernel::JacobiGather, wg64);
        proof {
            assert(out@ =~= so_far + jacobi_iteration(f, k as int));
            assert(out@ =~= first + jacobi_iterations(f, k + 1));
        }
        k = k + 1;
    }
    out.push(Command::EndPass);
    assert(out@ =~= jacobi_distance(f));
    out
}

/// The commands of a frame of the Jacobi solver.
pub fn jacobi_frame_commands<S>(cfg: &ClothSimConfig<S>, collisions: bool) -> (out: Vec<Command>)
    requires
        cfg.shape_spec(collisions).fits(),
    ensures
        out@ == frame(
            cfg.shape_spec(collisions),
            Binding::Base,
            copy_binding(cfg.shape_spec(collisions)),
            jacobi_distance(cfg.shape_spec(collisions)),
        ),
{
    let f = cfg.shape(collisions);
    let inner: u32 = if f.inner_iterations == 0 {
        1
    } else {
        f.inner_iterations
    };
    let copy = if f.num_distance_constraints == 0 || inner % 2 == 0 {
        Binding::CopyFromB
    } else {
        Binding::CopyFromA
    };
    let distance = jacobi_distance_commands(f);
    frame_commands(f, Binding::Base, copy, &distance)
}

/// Records a frame, and acknowledges the step it was for.
pub fn run_cloth_sim_jacobi<S>(
    cfg: &ClothSimConfig<S>,
    collisions: bool,
    last_ack_step_serial: &mut u64,
    ctrl: &ClothSimControl,
) -> (out: Vec<Command>)
    requires
        cfg.shape_spec(collisions).fits(),
    ensures
        out@ == frame(
            cfg.shape_spec(collisions),
            Binding::Base,
            copy_binding(cfg.shape_spec(collisions)),
            jacobi_distance(cfg.shape_spec(collisions)),
        ),
        *final(last_ack_step_serial) == ctrl.step_serial,
{
    let out = jacobi_frame_commands(cfg, collisions);
    *last_ack_step_serial = ctrl.step_serial;
    out
}

proof fn lemma_dispatches_iterations(f: FrameShape, k: int)
    requires
        0 <= k,
    ensures
        dispatches(jacobi_iterations(f, k)) == 3 * k,
    decreases k,
{
    if k > 0 {
        lemma_dispatches_iterations(f, k - 1);
        let wg = groups(f.num_distance_constraints as int, 64);
        let b = Command::Bind(iteration_binding(k - 1));
        let (x, y, z) = (
            run(Kernel::ClearConstraintLambda, wg),
            run(Kernel::JacobiEdges, wg),
            run(Kernel::JacobiGather, f.wg64()),
        );
        lemma_dispatches_one(b);
        lemma_dispatches_run(Kernel::ClearConstraintLambda, wg);
        lemma_dispatches_run(Kernel::JacobiEdges, wg);
        lemma_dispatches_run(Kernel::JacobiGather, f.wg64());
        lemma_dispatches_add(seq![b], x);
        lemma_dispatches_add(seq![b] + x, y);
        lemma_dispatches_add(seq![b] + x + y, z);
        lemma_dispatches_add(jacobi_iterations(f, k - 1), jacobi_iteration(f, k - 1));
    }
}

/// With constraints, a frame of `S` substeps of `I` iterations takes `S * (3 + 3 * I) + 3`
/// dispatches, and those of the collisions.
pub proof fn law_jacobi_frame_dispatches(f: FrameShape)
    requires
        f.num_distance_constraints > 0,
    ensures
        dispatches(frame(f, Binding::Base, copy_binding(f), jacobi_distance(f))) == {
            let s = at_least_one(f.substeps) as int;
            s * (3 + 3 * at_least_one(f.inner_iterations)) + collision_count(f, s)
                * collision_dispatches(f) + 3
        },
{
    let k = at_least_one(f.inner_iterations) as int;
    let first = seq![Command::BeginPass(Pass::DistanceJacobi)];
    lemma_dispatches_one(Command::BeginPass(Pass::DistanceJacobi));
    lemma_dispatches_one(Command::EndPass);
    lemma_dispatches_iterations(f, k);
    lemma_dispatches_add(first, jacobi_iterations(f, k));
    lemma_dispatches_add(first + jacobi_iterations(f, k), seq![Command::EndPass]);
    law_frame_dispatches(f, Binding::Base, copy_binding(f), jacobi_distance(f));
}

} // verus!
