//! What the substeps keep, and which order of constraints does not matter.

use vstd::prelude::*;

use crate::frame::groups;
use crate::gs::{edge_of_invocation, kernel_edge_input, kernel_edge_step, pair_input};
use crate::mesh_prep::batches::{divides, in_batch, share};
use crate::mesh_prep::cloth_mesh::ClothMeshData;
use crate::mesh_prep::laws::law_one_batch_each;
use crate::frame_laws::law_groups_cover;
use crate::arith::ArithModel;
use crate::cloth_compute::{batch_span, GS_EDGE_THREADS, SUBSTEPS};
use crate::substep::{
    colliding_substep, colliding_substeps, edge_step, free_substep, free_substeps, integrated,
    iterated, pair_step, predicted_positions, sweep, ConstraintTables, CpuModel, XpbdCpuTimeStepParams,
};
use crate::types::SimParams;
use crate::xpbd_cpu::{advanced, collision_model, cpu_model};

verus! {

/// A particle of inverse mass `w` is pinned: `w` is zero or less, and so not positive.
pub open spec fn pinned<S, P>(m: CpuModel<S, P>, w: S) -> bool {
    (m.held)(w) && !(m.positive)(w)
}

/// Solving a constraint keeps pinned particles, and the number of all.
proof fn lemma_edge_keeps<S, P>(
    m: CpuModel<S, P>,
    t: ConstraintTables<S>,
    state: (Seq<P>, Seq<S>),
    e: int,
    i: int,
)
    requires
        t.wf(state.0.len() as int),
        0 <= e < t.i.len(),
        0 <= i < state.0.len(),
        pinned(m, t.inv_mass[i]),
    ensures
        edge_step(m, t, state, e).0.len() == state.0.len(),
        edge_step(m, t, state, e).0[i] == state.0[i],
{
    assert(t.i[e] < state.0.len() && t.j[e] < state.0.len());
}

proof fn lemma_sweep_keeps<S, P>(
    m: CpuModel<S, P>,
    t: ConstraintTables<S>,
    jac: Seq<P>,
    zero: S,
    e: int,
    i: int,
)
    requires
        t.wf(jac.len() as int),
        0 <= e <= t.i.len(),
        0 <= i < jac.len(),
        pinned(m, t.inv_mass[i]),
    ensures
        sweep(m, t, jac, zero, e).0.len() == jac.len(),
        sweep(m, t, jac, zero, e).0[i] == jac[i],
    decreases e,
{
    if e > 0 {
        lemma_sweep_keeps(m, t, jac, zero, e - 1, i);
        lemma_edge_keeps(m, t, sweep(m, t, jac, zero, e - 1), e - 1, i);
    }
}

proof fn lemma_iterated_keeps<S, P>(
    m: CpuModel<S, P>,
    t: ConstraintTables<S>,
    jac: Seq<P>,
    zero: S,
    k: int,
    i: int,
)
    requires
        t.wf(jac.len() as int),
        0 <= i < jac.len(),
        pinned(m, t.inv_mass[i]),
    ensures
        iterated(m, t, jac, zero, k).len() == jac.len(),
        iterated(m, t, jac, zero, k)[i] == jac[i],
    decreases k,
{
    if k > 0 {
        lemma_iterated_keeps(m, t, jac, zero, k - 1, i);
        lemma_sweep_keeps(m, t, iterated(m, t, jac, zero, k - 1), zero, t.i.len() as int, i);
    }
}

/// A substep keeps the position and the velocity of every particle that is pinned, with collisions
/// and without.
pub proof fn law_substep_keeps_pinned<S, P>(
    m: CpuModel<S, P>,
    p: XpbdCpuTimeStepParams<S, P>,
    t: ConstraintTables<S>,
    zero: S,
    rest: Seq<P>,
    origin: P,
    state: (Seq<P>, Seq<P>),
    i: int,
)
    requires
        t.wf(state.0.len() as int),
        state.1.len() == state.0.len(),
        0 <= i < state.0.len(),
        pinned(m, t.inv_mass[i]),
    ensures
        ({
            let a = free_substep(m, p, t, zero, state);
            let b = colliding_substep(m, p, t, zero, rest, origin, state);
            &&& a.0.len() == state.0.len() && a.1.len() == state.1.len()
            &&& b.0.len() == state.0.len() && b.1.len() == state.1.len()
            &&& a.0[i] == state.0[i] && a.1[i] == state.1[i]
            &&& b.0[i] == state.0[i] && b.1[i] == state.1[i]
        }),
{
    let seed = predicted_positions(m, p, t.inv_mass, state.0, state.1);
    lemma_iterated_keeps(m, t, seed, zero, p.inner_iterations as int, i);
}

/// However many substeps run, every particle that is pinned keeps its position and its velocity.
pub proof fn law_pinned_never_move<S, P>(
    m: CpuModel<S, P>,
    p: XpbdCpuTimeStepParams<S, P>,
    t: ConstraintTables<S>,
    zero: S,
    rest: Seq<P>,
    origin: P,
    state: (Seq<P>, Seq<P>),
    k: int,
    i: int,
)
    requires
        t.wf(state.0.len() as int),
        state.1.len() == state.0.len(),
        0 <= i < state.0.len(),
        pinned(m, t.inv_mass[i]),
    ensures
        ({
            let a = free_substeps(m, p, t, zero, state, k);
            let b = colliding_substeps(m, p, t, zero, rest, origin, state, k);
            &&& a.0.len() == state.0.len() && a.1.len() == state.1.len()
            &&& b.0.len() == state.0.len() && b.1.len() == state.1.len()
            &&& a.0[i] == state.0[i] && a.1[i] == state.1[i]
            &&& b.0[i] == state.0[i] && b.1[i] == state.1[i]
        }),
    decreases k,
{
    if k > 0 {
        law_pinned_never_move(m, p, t, zero, rest, origin, state, k - 1, i);
        let a = free_substeps(m, p, t, zero, state, k - 1);
        let b = colliding_substeps(m, p, t, zero, rest, origin, state, k - 1);
        law_substep_keeps_pinned(m, p, t, zero, rest, origin, a, i);
        law_substep_keeps_pinned(m, p, t, zero, rest, origin, b, i);
    }
}

/// What an iteration computes depends on how a model solves constraints and whom it moves, not on
/// its prediction, its collisions or its velocities.
proof fn lemma_iterated_alike<S, P>(
    m: CpuModel<S, P>,
    n: CpuModel<S, P>,
    t: ConstraintTables<S>,
    jac: Seq<P>,
    zero: S,
    k: int,
)
    requires
        n.solve == m.solve,
        n.positive == m.positive,
        n.held == m.held,
    ensures
        iterated(n, t, jac, zero, k) == iterated(m, t, jac, zero, k),
    decreases k,
{
    if k > 0 {
        lemma_iterated_alike(m, n, t, jac, zero, k - 1);
        lemma_sweep_alike(m, n, t, iterated(m, t, jac, zero, k - 1), zero, t.i.len() as int);
    }
}

proof fn lemma_sweep_alike<S, P>(
    m: CpuModel<S, P>,
    n: CpuModel<S, P>,
    t: ConstraintTables<S>,
    jac: Seq<P>,
    zero: S,
    e: int,
)
    requires
        n.solve == m.solve,
        n.positive == m.positive,
        n.held == m.held,
    ensures
        sweep(n, t, jac, zero, e) == sweep(m, t, jac, zero, e),
    decreases e,
{
    if e > 0 {
        lemma_sweep_alike(m, n, t, jac, zero, e - 1);
    }
}

/// Iterations keep the number of particles.
proof fn lemma_iterated_len<S, P>(
    m: CpuModel<S, P>,
    t: ConstraintTables<S>,
    jac: Seq<P>,
    zero: S,
    k: int,
)
    requires
        t.wf(jac.len() as int),
    ensures
        iterated(m, t, jac, zero, k).len() == jac.len(),
    decreases k,
{
    if k > 0 {
        lemma_iterated_len(m, t, jac, zero, k - 1);
        lemma_sweep_len(m, t, iterated(m, t, jac, zero, k - 1), zero, t.i.len() as int);
    }
}

proof fn lemma_sweep_len<S, P>(
    m: CpuModel<S, P>,
    t: ConstraintTables<S>,
    jac: Seq<P>,
    zero: S,
    e: int,
)
    requires
        t.wf(jac.len() as int),
        0 <= e <= t.i.len(),
    ensures
        sweep(m, t, jac, zero, e).0.len() == jac.len(),
    decreases e,
{
    if e > 0 {
        lemma_sweep_len(m, t, jac, zero, e - 1);
        assert(t.i[e - 1] < jac.len() && t.j[e - 1] < jac.len());
    }
}

/// `j + k` iterations are `j` of them and then `k` more: every one starts with all multipliers at
/// zero, and so none depends on the multipliers of an earlier one.
pub proof fn law_iterations_add_up<S, P>(
    m: CpuModel<S, P>,
    t: ConstraintTables<S>,
    jac: Seq<P>,
    zero: S,
    j: int,
    k: int,
)
    requires
        0 <= j,
        0 <= k,
    ensures
        iterated(m, t, iterated(m, t, jac, zero, j), zero, k) == iterated(m, t, jac, zero, j + k),
    decreases k,
{
    if k > 0 {
        law_iterations_add_up(m, t, jac, zero, j, k - 1);
    }
}

/// The parameters of one more iteration that predicts nothing: no gravity, no grab, and a floor at
/// `floor_y`.
pub open spec fn one_more<S, P>(
    a: ArithModel<S, P>,
    p: XpbdCpuTimeStepParams<S, P>,
    floor_y: S,
) -> XpbdCpuTimeStepParams<S, P> {
    XpbdCpuTimeStepParams {
        inner_iterations: 1,
        gravity: a.k.origin,
        floor_y,
        grab_active: false,
        ..p
    }
}

/// A particle at `x` without velocity stays there, above a floor at `floor_y` and without gravity,
/// where the operations add nothing for nothing.
pub open spec fn stays<S, P>(a: ArithModel<S, P>, dt: S, floor_y: S, x: P) -> bool {
    let o = a.k.origin;
    &&& (a.v_times)(o, dt) == o
    &&& (a.v_plus)(o, o) == o
    &&& a.length(o) == a.k.zero
    &&& !(a.lt)(a.k.zero, a.k.zero)
    &&& (a.v_plus)(x, o) == x
    &&& !(a.lt)((a.height)(x), floor_y)
}

/// After a substep with `inner_iterations` iterations, one more iteration without gravity, grab and
/// velocities leads to where a substep with one iteration more would have led.
pub proof fn law_one_more_iteration<S, P>(
    a: ArithModel<S, P>,
    p: XpbdCpuTimeStepParams<S, P>,
    t: ConstraintTables<S>,
    thickness: S,
    coll_scale: S,
    floor_y: S,
    sim: Seq<P>,
    vel: Seq<P>,
)
    requires
        t.wf(sim.len() as int),
        p.inner_iterations < u32::MAX,
        ({
            let moved = integrated(
                cpu_model(a, p, thickness, coll_scale),
                p,
                t,
                a.k.zero,
                sim,
                vel,
            );
            forall|i: int| 0 <= i < moved.len() ==> stays(a, p.dt, floor_y, #[trigger] moved[i])
        }),
    ensures
        ({
            let more = XpbdCpuTimeStepParams {
                inner_iterations: (p.inner_iterations + 1) as u32,
                ..p
            };
            let q = one_more(a, p, floor_y);
            let moved = integrated(
                cpu_model(a, p, thickness, coll_scale),
                p,
                t,
                a.k.zero,
                sim,
                vel,
            );
            let still = Seq::new(sim.len(), |i: int| a.k.origin);
            integrated(cpu_model(a, q, thickness, coll_scale), q, t, a.k.zero, moved, still)
                == integrated(cpu_model(a, more, thickness, coll_scale), more, t, a.k.zero, sim, vel)
        }),
{
    let more = XpbdCpuTimeStepParams { inner_iterations: (p.inner_iterations + 1) as u32, ..p };
    let q = one_more(a, p, floor_y);
    let zero = a.k.zero;
    let c = cpu_model(a, p, thickness, coll_scale);
    let c_more = cpu_model(a, more, thickness, coll_scale);
    let c_q = cpu_model(a, q, thickness, coll_scale);
    let still = Seq::new(sim.len(), |i: int| a.k.origin);
    let k = p.inner_iterations as int;
    let seed = predicted_positions(c, p, t.inv_mass, sim, vel);
    let moved = integrated(c, p, t, zero, sim, vel);
    lemma_iterated_len(c, t, seed, zero, k);
    assert(c_more.solve =~= c.solve);
    assert(c_q.solve =~= c.solve);
    assert(c_more.positive =~= c.positive);
    assert(c_q.positive =~= c.positive);
    assert(c_more.held =~= c.held);
    assert(c_q.held =~= c.held);
    assert(predicted_positions(c_more, more, t.inv_mass, sim, vel) =~= seed);
    assert forall|i: int| 0 <= i < moved.len() implies (#[trigger] predicted_positions(
        c_q,
        q,
        t.inv_mass,
        moved,
        still,
    )[i]) == moved[i] by {
        assert(stays(a, p.dt, floor_y, moved[i]));
        assert(still[i] == a.k.origin);
    }
    assert(predicted_positions(c_q, q, t.inv_mass, moved, still) =~= moved);
    lemma_iterated_alike(c, c_more, t, seed, zero, k + 1);
    lemma_iterated_alike(c, c_q, t, moved, zero, 1);
    law_iterations_add_up(c, t, seed, zero, k, 1);
}

/// What `k` substeps, one after the other, leave: positions, velocities, positions before and
/// solved positions. Each starts from the positions and velocities that the one before left.
pub open spec fn one_after_the_other<S, P>(
    c: CpuModel<S, P>,
    p: XpbdCpuTimeStepParams<S, P>,
    t: ConstraintTables<S>,
    zero: S,
    origin: P,
    collide: Option<Seq<P>>,
    start: (Seq<P>, Seq<P>),
    k: int,
) -> (Seq<P>, Seq<P>, Seq<P>, Seq<P>)
    decreases k,
{
    if k <= 1 {
        advanced(c, p, t, zero, origin, collide, 1, start)
    } else {
        let (x, v, _, _) = one_after_the_other(c, p, t, zero, origin, collide, start, k - 1);
        advanced(c, p, t, zero, origin, collide, 1, (x, v))
    }
}

proof fn lemma_substeps_add_up<S, P>(
    c: CpuModel<S, P>,
    p: XpbdCpuTimeStepParams<S, P>,
    t: ConstraintTables<S>,
    zero: S,
    origin: P,
    collide: Option<Seq<P>>,
    start: (Seq<P>, Seq<P>),
    k: int,
)
    requires
        1 <= k,
    ensures
        one_after_the_other(c, p, t, zero, origin, collide, start, k) == advanced(
            c,
            p,
            t,
            zero,
            origin,
            collide,
            k,
            start,
        ),
    decreases k,
{
    if k > 1 {
        lemma_substeps_add_up(c, p, t, zero, origin, collide, start, k - 1);
        let (x, v, _, _) = one_after_the_other(c, p, t, zero, origin, collide, start, k - 1);
        assert(free_substeps(c, p, t, zero, (x, v), 0) == (x, v));
        match collide {
            None => {
                assert((x, v) == free_substeps(c, p, t, zero, start, k - 1));
            },
            Some(rest) => {
                assert(colliding_substeps(c, p, t, zero, rest, origin, (x, v), 0) == (x, v));
                assert((x, v) == colliding_substeps(c, p, t, zero, rest, origin, start, k - 1));
            },
        }
    }
}

/// A frame leaves what as many substeps, one after the other, leave, with collisions and without.
pub proof fn law_frame_is_its_substeps<S, P>(
    c: CpuModel<S, P>,
    p: XpbdCpuTimeStepParams<S, P>,
    t: ConstraintTables<S>,
    zero: S,
    origin: P,
    collide: Option<Seq<P>>,
    start: (Seq<P>, Seq<P>),
)
    ensures
        advanced(c, p, t, zero, origin, collide, SUBSTEPS as int, start) == one_after_the_other(
            c,
            p,
            t,
            zero,
            origin,
            collide,
            start,
            SUBSTEPS as int,
        ),
{
    lemma_substeps_add_up(c, p, t, zero, origin, collide, start, SUBSTEPS as int);
}

/// Constraints `e` and `f` have no particle in common.
pub open spec fn apart<S>(t: ConstraintTables<S>, e: int, f: int) -> bool {
    t.i[e] != t.i[f] && t.i[e] != t.j[f] && t.j[e] != t.i[f] && t.j[e] != t.j[f]
}

/// Two constraints without a common particle, as all of a batch are, can be solved in either order.
pub proof fn law_batch_order_is_free<S, P>(
    m: CpuModel<S, P>,
    t: ConstraintTables<S>,
    state: (Seq<P>, Seq<S>),
    e: int,
    f: int,
)
    requires
        t.wf(state.0.len() as int),
        state.1.len() == t.i.len(),
        0 <= e < t.i.len(),
        0 <= f < t.i.len(),
        e != f,
        apart(t, e, f),
    ensures
        edge_step(m, t, edge_step(m, t, state, e), f) == edge_step(
            m,
            t,
            edge_step(m, t, state, f),
            e,
        ),
{
    assert(t.i[e] < state.0.len() && t.j[e] < state.0.len());
    assert(t.i[f] < state.0.len() && t.j[f] < state.0.len());
    let a = edge_step(m, t, state, e);
    let b = edge_step(m, t, state, f);
    let ab = edge_step(m, t, a, f);
    let ba = edge_step(m, t, b, e);
    assert(ab.0 =~= ba.0);
    assert(ab.1 =~= ba.1);
}

/// Two invocations of the constraint kernel whose constraints have no particle in common, as all of a
/// batch are, can run in either order.
pub proof fn law_kernel_order_is_free<S, P>(
    m: ArithModel<S, P>,
    params: SimParams<S>,
    t: ConstraintTables<S>,
    state: (Seq<P>, Seq<S>, Seq<S>),
    e: int,
    f: int,
)
    requires
        t.wf(state.0.len() as int),
        state.1.len() == t.i.len(),
        state.2.len() == t.i.len(),
        0 <= e < t.i.len(),
        0 <= f < t.i.len(),
        e != f,
        apart(t, e, f),
    ensures
        kernel_edge_step(m, params, t, kernel_edge_step(m, params, t, state, e), f)
            == kernel_edge_step(m, params, t, kernel_edge_step(m, params, t, state, f), e),
{
    assert(t.i[e] < state.0.len() && t.j[e] < state.0.len());
    assert(t.i[f] < state.0.len() && t.j[f] < state.0.len());
    let a = kernel_edge_step(m, params, t, state, e);
    let b = kernel_edge_step(m, params, t, state, f);
    let ab = kernel_edge_step(m, params, t, a, f);
    let ba = kernel_edge_step(m, params, t, b, e);
    assert(kernel_edge_input(params, t, m.k.zero, a.0, a.1, f) == kernel_edge_input(
        params,
        t,
        m.k.zero,
        state.0,
        state.1,
        f,
    ));
    assert(kernel_edge_input(params, t, m.k.zero, b.0, b.1, e) == kernel_edge_input(
        params,
        t,
        m.k.zero,
        state.0,
        state.1,
        e,
    ));
    assert(ab.0 =~= ba.0);
    assert(ab.1 =~= ba.1);
    assert(ab.2 =~= ba.2);
}

/// The solver on the CPU separates a pair of particles as the kernels do, where none is grabbed: the
/// same pairs are in contact, with the same displacements, taken by the same particles.
pub proof fn law_pairs_part_as_in_the_kernels<S, P>(
    m: ArithModel<S, P>,
    params: SimParams<S>,
    inv_mass: Seq<S>,
    rest: Seq<P>,
    sim: Seq<P>,
    accum: Seq<P>,
    i: int,
    j: int,
)
    requires
        params.grab_active == 0,
    ensures
        ({
            let e = pair_input(params, sim, rest, inv_mass, m.k.zero, i, j);
            pair_step(
                collision_model(m, params.thickness, params.coll_scale),
                inv_mass,
                rest,
                sim,
                accum,
                i,
                j,
            ) == match m.separated(e, params.thickness, params.coll_scale) {
                None => accum,
                Some((di, dj)) => {
                    let first = if (m.lt)(m.k.zero, e.w_i) {
                        accum.update(i, (m.v_plus)(accum[i], di))
                    } else {
                        accum
                    };
                    if (m.lt)(m.k.zero, e.w_j) {
                        first.update(j, (m.v_plus)(first[j], dj))
                    } else {
                        first
                    }
                },
            }
        }),
{
}

/// The constraints of one batch of a mesh can be solved in any order.
pub proof fn law_mesh_batches_apart<S>(mesh: ClothMeshData<S>, b: int, e: int, f: int)
    requires
        mesh.wf(),
        0 <= b < mesh.constraint_batch_count,
        in_batch(mesh.constraint_batch_offsets@, b, e),
        in_batch(mesh.constraint_batch_offsets@, b, f),
        e != f,
    ensures
        apart(mesh_tables(mesh), e, f),
        mesh_tables(mesh).wf(mesh.num_particles as int),
{
    let rows = mesh.rows();
    let t = mesh_tables(mesh);
    let offsets = mesh.constraint_batch_offsets@;
    if b + 1 < offsets.len() - 1 {
        assert(offsets[b + 1] < offsets[offsets.len() - 1]);
    }
    if e < f {
        assert(!share(rows[e], rows[f]));
    } else {
        assert(!share(rows[f], rows[e]));
    }
    assert forall|k: int| 0 <= k < t.i.len() implies #[trigger] t.i[k] < mesh.num_particles by {
        assert(rows[k].i < mesh.num_particles);
    }
    assert forall|k: int| 0 <= k < t.j.len() implies #[trigger] t.j[k] < mesh.num_particles by {
        assert(rows[k].j < mesh.num_particles);
    }
}

/// The constraints of a mesh as tables.
pub open spec fn mesh_tables<S>(mesh: ClothMeshData<S>) -> ConstraintTables<S> {
    ConstraintTables {
        inv_mass: mesh.inv_mass@,
        i: mesh.constraint_i@,
        j: mesh.constraint_j@,
        rest_len: mesh.constraint_rest_len@,
        compliance: mesh.constraint_compliance@,
    }
}

/// Every constraint is solved by exactly one invocation of exactly one batch, and that invocation
/// is dispatched.
pub proof fn law_one_invocation_each(offsets: Seq<u32>, m: int, e: int) -> (r: (u32, u32))
    requires
        divides(offsets, m),
        m + GS_EDGE_THREADS <= u32::MAX,
        0 <= e < m,
    ensures
        r.0 < offsets.len() - 1,
        edge_of_invocation((offsets.len() - 1) as u32, offsets, r.0, r.1) == Some(e),
        r.1 < groups(batch_span(offsets, r.0 as int), GS_EDGE_THREADS as int) * GS_EDGE_THREADS,
        forall|b: u32, x: u32| #[trigger]
            edge_of_invocation((offsets.len() - 1) as u32, offsets, b, x) == Some(e) ==> b == r.0
                && x == r.1,
{
    lemma_offset_below(offsets, m, offsets.len() - 1);
    let b = law_one_batch_each(offsets, m, e);
    let x = e - offsets[b];
    lemma_offset_below(offsets, m, b);
    assert(offsets[b + 1] <= m) by {
        if b + 1 < offsets.len() - 1 {
            assert(offsets[b + 1] < offsets[offsets.len() - 1]);
        }
    }
    law_groups_cover(batch_span(offsets, b), GS_EDGE_THREADS as int);
    assert forall|c: u32, y: u32| #[trigger]
        edge_of_invocation((offsets.len() - 1) as u32, offsets, c, y) == Some(e) implies c == b && y
        == x by {
        assert(in_batch(offsets, c as int, e));
    }
    (b as u32, x as u32)
}

/// The batches before an offset are at most as many as the constraints in them.
proof fn lemma_offset_below(offsets: Seq<u32>, m: int, b: int)
    requires
        divides(offsets, m),
        0 <= b < offsets.len(),
    ensures
        b <= offsets[b],
    decreases b,
{
    if b > 0 {
        lemma_offset_below(offsets, m, b - 1);
        assert(offsets[b - 1] < offsets[b]);
    }
}

/// The constraints that the first `b` batches solve, invocation by invocation.
pub open spec fn dispatched_rows(offsets: Seq<u32>, b: int) -> Seq<int>
    decreases b,
{
    if b <= 0 {
        seq![]
    } else {
        dispatched_rows(offsets, b - 1) + Seq::new(
            batch_span(offsets, b - 1) as nat,
            |x: int| offsets[b - 1] + x,
        )
    }
}

/// Batch after batch, the kernels take the constraints in the order in which they are listed, as
/// the solver on the CPU does.
pub proof fn law_batches_follow_the_rows(offsets: Seq<u32>, m: int, b: int)
    requires
        divides(offsets, m),
        0 <= b < offsets.len(),
    ensures
        dispatched_rows(offsets, b) == Seq::new(offsets[b] as nat, |k: int| k),
        b == offsets.len() - 1 ==> dispatched_rows(offsets, b) == Seq::new(m as nat, |k: int| k),
    decreases b,
{
    if b > 0 {
        law_batches_follow_the_rows(offsets, m, b - 1);
        assert(offsets[b - 1] < offsets[b]);
    }
    assert(dispatched_rows(offsets, b) =~= Seq::new(offsets[b] as nat, |k: int| k));
}

} // verus!
