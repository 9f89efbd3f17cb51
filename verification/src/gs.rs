//! Compute kernels of the Gauss-Seidel solver.
//!
//! Each kernel is the work of one invocation, chosen by its global id. What it computes on scalars
//! and vectors are the formulas of [`Arith`]. Conversions to and from fixed point are handed to it as
//! functions.

use vstd::prelude::*;

use crate::arith::{gives, Arith, ArithModel};
use crate::atom;
use crate::atom::{wrapping_sum_i32, wrapping_sum_u32};
use crate::common::{
    cell_of, effective_inv_mass, grabbed, law_cell_coords_in_grid, law_neighbor_shifts_coords,
    neighbor_flat, neighbor_of,
};
use crate::substep::{tables, ConstraintTables, EdgeInput, PairInput};
use crate::types::{CollGridUniform, CollRadixPassUniform, GsDynBatchUniform, SimParams};

verus! {

/// Marks a cell without particles in the table of range starts.
pub const EMPTY_CELL: u32 = 0xffff_ffff;

/// The permutation buffer that is read: `pong` or `ping`.
pub open spec fn chosen(ping: Seq<u32>, pong: Seq<u32>, from_pong: bool) -> Seq<u32> {
    if from_pong {
        pong
    } else {
        ping
    }
}

pub fn perm_read(ping: &[u32], pong: &[u32], idx: usize, from_pong: bool) -> (r: u32)
    requires
        idx < chosen(ping@, pong@, from_pong).len(),
    ensures
        r == chosen(ping@, pong@, from_pong)[idx as int],
{
    if from_pong {
        pong[idx]
    } else {
        ping[idx]
    }
}

/// The permutation after `radix_digits` passes: the buffer that the last pass wrote.
pub open spec fn sorted_perm(ping: Seq<u32>, pong: Seq<u32>, radix_digits: u32) -> Seq<u32> {
    chosen(ping, pong, radix_digits % 2 == 1)
}

pub fn perm_final_read(ping: &[u32], pong: &[u32], i: usize, radix_digits: u32) -> (r: u32)
    requires
        i < sorted_perm(ping@, pong@, radix_digits).len(),
    ensures
        r == sorted_perm(ping@, pong@, radix_digits)[i as int],
{
    assert((radix_digits & 1 == 0) == (radix_digits % 2 == 0)) by (bit_vector);
    let out_ping = (radix_digits & 1) == 0;
    perm_read(ping, pong, i, !out_ping)
}

/// The position and velocity that the prediction gives particle `i`. A pinned one keeps both, even
/// where it is grabbed.
pub open spec fn kernel_prediction<S, P>(
    m: ArithModel<S, P>,
    params: SimParams<S>,
    i: u32,
    x: P,
    v: P,
    w: S,
) -> (P, P) {
    if (m.le)(w, m.k.zero) {
        (x, v)
    } else {
        m.predicted(
            grabbed(params, i),
            x,
            v,
            w,
            (m.xyz)(params.gravity),
            (m.xyz)(params.grab_target),
            params.dt,
            params.grab_stiffness,
        )
    }
}

/// Saves the position of particle `gid[0]`, predicts it unless it is pinned, and seeds the solver
/// state with it.
pub fn predict_copy_sim_to_jac<
    S: Copy,
    P: Copy,
    Lt: Fn(S, S) -> bool,
    Le: Fn(S, S) -> bool,
    Eq: Fn(S, S) -> bool,
    Plus: Fn(S, S) -> S,
    Minus: Fn(S, S) -> S,
    Times: Fn(S, S) -> S,
    Over: Fn(S, S) -> S,
    Min: Fn(S, S) -> S,
    Max: Fn(S, S) -> S,
    Neg: Fn(S) -> S,
    Sqrt: Fn(S) -> S,
    Exp: Fn(S) -> S,
    VPlus: Fn(P, P) -> P,
    VMinus: Fn(P, P) -> P,
    VTimes: Fn(P, S) -> P,
    VOver: Fn(P, S) -> P,
    VNeg: Fn(P) -> P,
    Dot: Fn(P, P) -> S,
    Height: Fn(P) -> S,
    AtHeight: Fn(P, S) -> P,
    Confine: Fn(P, S) -> P,
    Xyz: Fn([S; 4]) -> P,
    Parts: Fn(P) -> [S; 3],
    Floor: Fn(S) -> i32,
>(
    gid: [u32; 3],
    params: &SimParams<S>,
    sim_pos: &mut [P],
    jac_state: &mut [P],
    prev_pos: &mut [P],
    velocities: &mut [P],
    inv_mass: &[S],
    arith: &Arith<
        S, P, Lt, Le, Eq, Plus, Minus, Times, Over, Min, Max, Neg, Sqrt, Exp, VPlus, VMinus,
        VTimes, VOver, VNeg, Dot, Height, AtHeight, Confine, Xyz, Parts, Floor,
    >,
)
    requires
        arith.total(),
        gid@[0] < params.num_particles ==> {
            &&& gid@[0] < old(sim_pos)@.len()
            &&& gid@[0] < old(jac_state)@.len()
            &&& gid@[0] < old(prev_pos)@.len()
            &&& gid@[0] < old(velocities)@.len()
            &&& gid@[0] < inv_mass@.len()
        },
    ensures
        ({
            let i = gid@[0] as int;
            let sim = old(sim_pos)@;
            if gid@[0] >= params.num_particles {
                &&& final(sim_pos)@ == sim
                &&& final(jac_state)@ == old(jac_state)@
                &&& final(prev_pos)@ == old(prev_pos)@
                &&& final(velocities)@ == old(velocities)@
            } else {
                &&& final(sim_pos)@ == sim.update(i, final(sim_pos)@[i])
                &&& final(jac_state)@ == old(jac_state)@.update(i, final(sim_pos)@[i])
                &&& final(prev_pos)@ == old(prev_pos)@.update(i, sim[i])
                &&& final(velocities)@ == old(velocities)@.update(i, final(velocities)@[i])
                &&& forall|m: ArithModel<S, P>| #[trigger]
                    arith.computes(m) ==> (
                        final(sim_pos)@[i],
                        final(velocities)@[i],
                    ) == kernel_prediction(
                        m,
                        *params,
                        gid@[0],
                        sim[i],
                        old(velocities)@[i],
                        inv_mass@[i],
                    )
            }
        }),
{
    if gid[0] >= params.num_particles {
        return ;
    }
    let i: usize = gid[0] as usize;
    let w = inv_mass[i];
    prev_pos[i] = sim_pos[i];
    if (arith.le)(w, arith.k.zero) {
        jac_state[i] = sim_pos[i];
        proof {
            assert(sim_pos@ =~= sim_pos@.update(i as int, sim_pos@[i as int]));
            assert(velocities@ =~= velocities@.update(i as int, velocities@[i as int]));
        }
        return ;
    }
    let (p, v) = arith.predict_position(params, gid[0], sim_pos[i], velocities[i], w);
    sim_pos[i] = p;
    velocities[i] = v;
    jac_state[i] = p;
}

/// Takes the solved position of particle `gid[0]` over into the simulation state.
pub fn copy_jac_to_sim<S, P: Copy>(
    gid: [u32; 3],
    params: &SimParams<S>,
    sim_pos: &mut [P],
    jac_state: &[P],
)
    requires
        gid@[0] < params.num_particles ==> gid@[0] < old(sim_pos)@.len() && gid@[0]
            < jac_state@.len(),
    ensures
        final(sim_pos)@ == if gid@[0] >= params.num_particles {
            old(sim_pos)@
        } else {
            old(sim_pos)@.update(gid@[0] as int, jac_state@[gid@[0] as int])
        },
{
    if gid[0] >= params.num_particles {
        return ;
    }
    let i: usize = gid[0] as usize;
    sim_pos[i] = jac_state[i];
}

/// Zeroes the multiplier of constraint `gid[0]` and its last change.
pub fn clear_constraint_lambda<S: Copy>(
    gid: [u32; 3],
    constraint_lambda: &mut [S],
    constraint_delta_lambda: &mut [S],
    zero: S,
)
    requires
        gid@[0] < old(constraint_lambda)@.len() ==> gid@[0] < old(constraint_delta_lambda)@.len(),
    ensures
        gid@[0] < old(constraint_lambda)@.len() ==> {
            &&& final(constraint_lambda)@ == old(constraint_lambda)@.update(gid@[0] as int, zero)
            &&& final(constraint_delta_lambda)@ == old(constraint_delta_lambda)@.update(
                gid@[0] as int,
                zero,
            )
        },
        gid@[0] >= old(constraint_lambda)@.len() ==> {
            &&& final(constraint_lambda)@ == old(constraint_lambda)@
            &&& final(constraint_delta_lambda)@ == old(constraint_delta_lambda)@
        },
{
    let i: usize = gid[0] as usize;
    if i >= constraint_lambda.len() {
        return ;
    }
    constraint_lambda[i] = zero;
    constraint_delta_lambda[i] = zero;
}

/// Outcome of one distance constraint: the change of its multiplier, the multiplier after it, and
/// where the two ends go.
#[derive(Clone, Copy)]
pub struct EdgeSolve<S, P> {
    pub dlam: S,
    pub lambda: S,
    pub p_i: P,
    pub p_j: P,
}

/// The inverse mass of particle `i` that constraints and collisions see.
pub open spec fn seen_inv_mass<S>(
    params: SimParams<S>,
    inv_mass: Seq<S>,
    zero: S,
    i: int,
) -> S {
    if grabbed(params, i as u32) {
        zero
    } else {
        inv_mass[i]
    }
}

/// The constraint that invocation `x` solves in batch `b`: row `offsets[b] + x`, if that is a row
/// of the batch.
pub open spec fn edge_of_invocation(
    batch_count: u32,
    offsets: Seq<u32>,
    b: u32,
    x: u32,
) -> Option<int> {
    if b < batch_count && offsets[b as int] + x < offsets[b + 1] {
        Some(offsets[b as int] + x)
    } else {
        None
    }
}

/// Positions after one solved constraint: each end moves where it may.
pub open spec fn moved_ends<P>(
    jac: Seq<P>,
    i: int,
    j: int,
    move_i: bool,
    move_j: bool,
    p_i: P,
    p_j: P,
) -> Seq<P> {
    let first = if move_i {
        jac.update(i, p_i)
    } else {
        jac
    };
    if move_j {
        first.update(j, p_j)
    } else {
        first
    }
}

/// What constraint `e` is solved from.
pub open spec fn kernel_edge_input<S, P>(
    params: SimParams<S>,
    t: ConstraintTables<S>,
    zero: S,
    jac: Seq<P>,
    lambda: Seq<S>,
    e: int,
) -> EdgeInput<S, P> {
    let i = t.i[e] as int;
    let j = t.j[e] as int;
    EdgeInput {
        w_i: seen_inv_mass(params, t.inv_mass, zero, i),
        w_j: seen_inv_mass(params, t.inv_mass, zero, j),
        rest: t.rest_len[e],
        compliance: t.compliance[e],
        p_i: jac[i],
        p_j: jac[j],
        lambda: lambda[e],
    }
}

/// The positions, the multipliers and their last changes after a kernel solved constraint `e`.
pub open spec fn kernel_edge_step<S, P>(
    m: ArithModel<S, P>,
    params: SimParams<S>,
    t: ConstraintTables<S>,
    state: (Seq<P>, Seq<S>, Seq<S>),
    e: int,
) -> (Seq<P>, Seq<S>, Seq<S>) {
    let (jac, lambda, delta) = state;
    let zero = m.k.zero;
    let input = kernel_edge_input(params, t, zero, jac, lambda, e);
    if (m.le)(input.w_j, zero) && (m.le)(input.w_i, zero) {
        (jac, lambda, delta.update(e, zero))
    } else {
        match m.solved(input, params.inv_dt_sq, params.jacobi_omega) {
            None => (jac, lambda, delta.update(e, zero)),
            Some(s) => (
                moved_ends(
                    jac,
                    t.i[e] as int,
                    t.j[e] as int,
                    (m.lt)(zero, input.w_i),
                    (m.lt)(zero, input.w_j),
                    s.p_i,
                    s.p_j,
                ),
                lambda.update(e, s.lambda),
                delta.update(e, s.dlam),
            ),
        }
    }
}

/// Solves one constraint of the batch `gs_dyn_batch.head[0]` in place.
pub fn gs_edges<
    S: Copy,
    P: Copy,
    Lt: Fn(S, S) -> bool,
    Le: Fn(S, S) -> bool,
    Eq: Fn(S, S) -> bool,
    Plus: Fn(S, S) -> S,
    Minus: Fn(S, S) -> S,
    Times: Fn(S, S) -> S,
    Over: Fn(S, S) -> S,
    Min: Fn(S, S) -> S,
    Max: Fn(S, S) -> S,
    Neg: Fn(S) -> S,
    Sqrt: Fn(S) -> S,
    Exp: Fn(S) -> S,
    VPlus: Fn(P, P) -> P,
    VMinus: Fn(P, P) -> P,
    VTimes: Fn(P, S) -> P,
    VOver: Fn(P, S) -> P,
    VNeg: Fn(P) -> P,
    Dot: Fn(P, P) -> S,
    Height: Fn(P) -> S,
    AtHeight: Fn(P, S) -> P,
    Confine: Fn(P, S) -> P,
    Xyz: Fn([S; 4]) -> P,
    Parts: Fn(P) -> [S; 3],
    Floor: Fn(S) -> i32,
>(
    gid: [u32; 3],
    params: &SimParams<S>,
    gs_dyn_batch: &GsDynBatchUniform,
    jac_state: &mut [P],
    inv_mass: &[S],
    constraint_batch_offsets: &[u32],
    constraint_i: &[u32],
    constraint_j: &[u32],
    constraint_rest: &[S],
    constraint_comp: &[S],
    constraint_lambda: &mut [S],
    constraint_delta_lambda: &mut [S],
    arith: &Arith<
        S, P, Lt, Le, Eq, Plus, Minus, Times, Over, Min, Max, Neg, Sqrt, Exp, VPlus, VMinus,
        VTimes, VOver, VNeg, Dot, Height, AtHeight, Confine, Xyz, Parts, Floor,
    >,
)
    requires
        arith.total(),
        gs_dyn_batch.head@[0] < params.constraint_batch_count ==> gs_dyn_batch.head@[0] + 1
            < constraint_batch_offsets@.len() && gid@[0]
            + constraint_batch_offsets@[gs_dyn_batch.head@[0] as int] <= u32::MAX,
        edge_of_invocation(
            params.constraint_batch_count,
            constraint_batch_offsets@,
            gs_dyn_batch.head@[0],
            gid@[0],
        ) matches Some(e) ==> {
            let i = constraint_i@[e] as int;
            let j = constraint_j@[e] as int;
            &&& e < constraint_i@.len()
            &&& e < constraint_j@.len()
            &&& e < constraint_rest@.len()
            &&& e < constraint_comp@.len()
            &&& e < old(constraint_lambda)@.len()
            &&& e < old(constraint_delta_lambda)@.len()
            &&& i < old(jac_state)@.len() && i < inv_mass@.len()
            &&& j < old(jac_state)@.len() && j < inv_mass@.len()
        },
    ensures
        final(jac_state)@.len() == old(jac_state)@.len(),
        final(constraint_lambda)@.len() == old(constraint_lambda)@.len(),
        final(constraint_delta_lambda)@.len() == old(constraint_delta_lambda)@.len(),
        match edge_of_invocation(
            params.constraint_batch_count,
            constraint_batch_offsets@,
            gs_dyn_batch.head@[0],
            gid@[0],
        ) {
            None => {
                &&& final(jac_state)@ == old(jac_state)@
                &&& final(constraint_lambda)@ == old(constraint_lambda)@
                &&& final(constraint_delta_lambda)@ == old(constraint_delta_lambda)@
            },
            Some(e) => forall|m: ArithModel<S, P>| #[trigger]
                arith.computes(m) ==> (
                    final(jac_state)@,
                    final(constraint_lambda)@,
                    final(constraint_delta_lambda)@,
                ) == kernel_edge_step(
                    m,
                    *params,
                    tables(inv_mass, constraint_i, constraint_j, constraint_rest, constraint_comp),
                    (old(jac_state)@, old(constraint_lambda)@, old(constraint_delta_lambda)@),
                    e,
                ),
        },
{
    let b: u32 = gs_dyn_batch.head[0];
    if params.constraint_batch_count == 0 || b >= params.constraint_batch_count {
        return ;
    }
    let start: u32 = constraint_batch_offsets[b as usize];
    let end: u32 = constraint_batch_offsets[b as usize + 1];
    let row: u32 = gid[0] + start;
    if row >= end {
        return ;
    }
    let e: usize = row as usize;
    let i: u32 = constraint_i[e];
    let j: u32 = constraint_j[e];
    let zero = arith.k.zero;
    let w_i = effective_inv_mass(params, i, inv_mass[i as usize], zero);
    let w_j = effective_inv_mass(params, j, inv_mass[j as usize], zero);
    if (arith.le)(w_j, zero) {
        if (arith.le)(w_i, zero) {
            constraint_delta_lambda[e] = zero;
            return ;
        }
    }
    let input = EdgeInput {
        w_i,
        w_j,
        rest: constraint_rest[e],
        compliance: constraint_comp[e],
        p_i: jac_state[i as usize],
        p_j: jac_state[j as usize],
        lambda: constraint_lambda[e],
    };
    match arith.solve_edge(input, params.inv_dt_sq, params.jacobi_omega) {
        None => {
            constraint_delta_lambda[e] = zero;
        },
        Some(s) => {
            constraint_delta_lambda[e] = s.dlam;
            constraint_lambda[e] = s.lambda;
            if (arith.lt)(zero, w_i) {
                jac_state[i as usize] = s.p_i;
            }
            if (arith.lt)(zero, w_j) {
                jac_state[j as usize] = s.p_j;
            }
        },
    }
}

/// The velocity of a particle that moved from `prev` to `x`; a pinned one keeps `v`.
pub open spec fn kernel_velocity<S, P>(
    m: ArithModel<S, P>,
    params: SimParams<S>,
    w: S,
    x: P,
    prev: P,
    v: P,
) -> P {
    if (m.le)(w, m.k.zero) {
        v
    } else {
        m.velocity(x, prev, params.inv_dt, params.linear_drag_per_sec, params.dt)
    }
}

/// Derives the velocity of particle `gid[0]` from where it was and where it is, unless pinned.
pub fn post_velocity<
    S: Copy,
    P: Copy,
    Lt: Fn(S, S) -> bool,
    Le: Fn(S, S) -> bool,
    Eq: Fn(S, S) -> bool,
    Plus: Fn(S, S) -> S,
    Minus: Fn(S, S) -> S,
    Times: Fn(S, S) -> S,
    Over: Fn(S, S) -> S,
    Min: Fn(S, S) -> S,
    Max: Fn(S, S) -> S,
    Neg: Fn(S) -> S,
    Sqrt: Fn(S) -> S,
    Exp: Fn(S) -> S,
    VPlus: Fn(P, P) -> P,
    VMinus: Fn(P, P) -> P,
    VTimes: Fn(P, S) -> P,
    VOver: Fn(P, S) -> P,
    VNeg: Fn(P) -> P,
    Dot: Fn(P, P) -> S,
    Height: Fn(P) -> S,
    AtHeight: Fn(P, S) -> P,
    Confine: Fn(P, S) -> P,
    Xyz: Fn([S; 4]) -> P,
    Parts: Fn(P) -> [S; 3],
    Floor: Fn(S) -> i32,
>(
    gid: [u32; 3],
    params: &SimParams<S>,
    sim_pos: &[P],
    prev_pos: &[P],
    velocities: &mut [P],
    inv_mass: &[S],
    arith: &Arith<
        S, P, Lt, Le, Eq, Plus, Minus, Times, Over, Min, Max, Neg, Sqrt, Exp, VPlus, VMinus,
        VTimes, VOver, VNeg, Dot, Height, AtHeight, Confine, Xyz, Parts, Floor,
    >,
)
    requires
        arith.total(),
        gid@[0] < params.num_particles ==> {
            &&& gid@[0] < sim_pos@.len()
            &&& gid@[0] < prev_pos@.len()
            &&& gid@[0] < old(velocities)@.len()
            &&& gid@[0] < inv_mass@.len()
        },
    ensures
        ({
            let i = gid@[0] as int;
            if gid@[0] >= params.num_particles {
                final(velocities)@ == old(velocities)@
            } else {
                &&& final(velocities)@ == old(velocities)@.update(i, final(velocities)@[i])
                &&& forall|m: ArithModel<S, P>| #[trigger]
                    arith.computes(m) ==> final(velocities)@[i] == kernel_velocity(
                        m,
                        *params,
                        inv_mass@[i],
                        sim_pos@[i],
                        prev_pos@[i],
                        old(velocities)@[i],
                    )
            }
        }),
{
    if gid[0] >= params.num_particles {
        return ;
    }
    let i: usize = gid[0] as usize;
    if (arith.le)(inv_mass[i], arith.k.zero) {
        assert(velocities@ =~= velocities@.update(i as int, velocities@[i as int]));
        return ;
    }
    velocities[i] = arith.velocity(
        sim_pos[i],
        prev_pos[i],
        params.inv_dt,
        params.linear_drag_per_sec,
        params.dt,
    );
}

/// Zeroes cell `gid[0]` of the accumulated collision displacements, three cells a particle.
pub fn clear_atomics<S>(gid: [u32; 3], params: &SimParams<S>, atomic_coll: &mut [i32])
    requires
        params.num_particles * 3 <= u32::MAX,
        gid@[0] < params.num_particles * 3 ==> gid@[0] < old(atomic_coll)@.len(),
    ensures
        final(atomic_coll)@ == if gid@[0] < params.num_particles * 3 {
            old(atomic_coll)@.update(gid@[0] as int, 0)
        } else {
            old(atomic_coll)@
        },
{
    if gid[0] < params.num_particles * 3 {
        atom::store_i32(&mut atomic_coll[gid[0] as usize], 0);
    }
}

/// Marks cell `gid[0]` as empty.
pub fn coll_cell_bounds_clear<S>(
    gid: [u32; 3],
    coll_grid_u: &CollGridUniform<S>,
    coll_cell_start: &mut [u32],
    coll_cell_end_exclusive: &mut [u32],
)
    requires
        gid@[0] < coll_grid_u.num_cells ==> gid@[0] < old(coll_cell_start)@.len() && gid@[0] < old(
            coll_cell_end_exclusive,
        )@.len(),
    ensures
        gid@[0] < coll_grid_u.num_cells ==> {
            &&& final(coll_cell_start)@ == old(coll_cell_start)@.update(gid@[0] as int, EMPTY_CELL)
            &&& final(coll_cell_end_exclusive)@ == old(coll_cell_end_exclusive)@.update(
                gid@[0] as int,
                0,
            )
        },
        gid@[0] >= coll_grid_u.num_cells ==> {
            &&& final(coll_cell_start)@ == old(coll_cell_start)@
            &&& final(coll_cell_end_exclusive)@ == old(coll_cell_end_exclusive)@
        },
{
    if gid[0] >= coll_grid_u.num_cells {
        return ;
    }
    let i: usize = gid[0] as usize;
    atom::store_u32(&mut coll_cell_start[i], EMPTY_CELL);
    atom::store_u32(&mut coll_cell_end_exclusive[i], 0);
}

/// Puts particle `gid[0]` at its own place, before the first radix pass.
pub fn coll_perm_identity_ping<S>(
    gid: [u32; 3],
    coll_grid_u: &CollGridUniform<S>,
    coll_perm_ping: &mut [u32],
)
    requires
        gid@[0] < coll_grid_u.num_particles ==> gid@[0] < old(coll_perm_ping)@.len(),
    ensures
        final(coll_perm_ping)@ == if gid@[0] < coll_grid_u.num_particles {
            old(coll_perm_ping)@.update(gid@[0] as int, gid@[0])
        } else {
            old(coll_perm_ping)@
        },
{
    if gid[0] >= coll_grid_u.num_particles {
        return ;
    }
    coll_perm_ping[gid[0] as usize] = gid[0];
}

/// Zeroes bin `gid[0]` of the digit histogram.
pub fn coll_histogram_clear(gid: [u32; 3], coll_radix_hist: &mut [u32; 256])
    ensures
        final(coll_radix_hist)@ == if gid@[0] < 256 {
            old(coll_radix_hist)@.update(gid@[0] as int, 0)
        } else {
            old(coll_radix_hist)@
        },
{
    let i: usize = gid[0] as usize;
    if i >= 256 {
        return ;
    }
    atom::store_u32(&mut coll_radix_hist[i], 0);
}

/// 256 to the power `p`.
pub open spec fn pow256(p: nat) -> nat
    decreases p,
{
    if p == 0 {
        1
    } else {
        256 * pow256((p - 1) as nat)
    }
}

/// Digit `pass` of `f`, to the base 256.
pub open spec fn digit_of(f: int, pass: int) -> int {
    (f / (pow256(pass as nat) as int)) % 256
}

fn radix_digit(f: u32, pass: u32) -> (r: usize)
    requires
        pass < 4,
    ensures
        r == digit_of(f as int, pass as int),
        r < 256,
{
    proof {
        reveal_with_fuel(pow256, 4);
        assert((f >> 0u32) & 0xff == (f / 1) % 256) by (bit_vector);
        assert((f >> 8u32) & 0xff == (f / 0x100) % 256) by (bit_vector);
        assert((f >> 16u32) & 0xff == (f / 0x1_0000) % 256) by (bit_vector);
        assert((f >> 24u32) & 0xff == (f / 0x100_0000) % 256) by (bit_vector);
    }
    ((f >> (pass * 8)) & 0xff) as usize
}

/// The cell of particle `p`, whose grid coordinates are `sim_cell[p]`.
pub open spec fn particle_cell<S>(
    grid: CollGridUniform<S>,
    sim_cell: Seq<[i32; 3]>,
    p: u32,
) -> int {
    cell_of(grid, sim_cell[p as int])
}

/// The cell of the particle at place `k` of the permutation `perm`.
pub open spec fn cell_at<S>(
    grid: CollGridUniform<S>,
    sim_cell: Seq<[i32; 3]>,
    perm: Seq<u32>,
    k: int,
) -> int {
    particle_cell(grid, sim_cell, perm[k])
}

/// The permutation that radix pass `pass` reads.
pub open spec fn pass_input(ping: Seq<u32>, pong: Seq<u32>, pass: u32) -> Seq<u32> {
    chosen(ping, pong, pass % 2 == 1)
}

fn reads_pong(pass: u32) -> (r: bool)
    ensures
        r == (pass % 2 == 1),
{
    assert((pass & 1 != 0) == (pass % 2 == 1)) by (bit_vector);
    (pass & 1) != 0
}

/// The bins after one more item of digit `d`.
pub open spec fn count_step(bins: Seq<u32>, d: int) -> Seq<u32> {
    bins.update(d, wrapping_sum_u32(bins[d], 1) as u32)
}

/// The digit of the particle at place `k`, in radix pass `pass`.
pub open spec fn place_digit<S>(
    grid: CollGridUniform<S>,
    sim_cell: Seq<[i32; 3]>,
    perm: Seq<u32>,
    pass: u32,
    k: int,
) -> int {
    digit_of(cell_at(grid, sim_cell, perm, k), pass as int)
}

/// The cell of particle `p`.
fn cell_of_particle<
    S: Copy,
    P: Copy,
    Lt: Fn(S, S) -> bool,
    Le: Fn(S, S) -> bool,
    Eq: Fn(S, S) -> bool,
    Plus: Fn(S, S) -> S,
    Minus: Fn(S, S) -> S,
    Times: Fn(S, S) -> S,
    Over: Fn(S, S) -> S,
    Min: Fn(S, S) -> S,
    Max: Fn(S, S) -> S,
    Neg: Fn(S) -> S,
    Sqrt: Fn(S) -> S,
    Exp: Fn(S) -> S,
    VPlus: Fn(P, P) -> P,
    VMinus: Fn(P, P) -> P,
    VTimes: Fn(P, S) -> P,
    VOver: Fn(P, S) -> P,
    VNeg: Fn(P) -> P,
    Dot: Fn(P, P) -> S,
    Height: Fn(P) -> S,
    AtHeight: Fn(P, S) -> P,
    Confine: Fn(P, S) -> P,
    Xyz: Fn([S; 4]) -> P,
    Parts: Fn(P) -> [S; 3],
    Floor: Fn(S) -> i32,
>(
    grid: &CollGridUniform<S>,
    sim_pos: &[P],
    p: u32,
    arith: &Arith<
        S, P, Lt, Le, Eq, Plus, Minus, Times, Over, Min, Max, Neg, Sqrt, Exp, VPlus, VMinus,
        VTimes, VOver, VNeg, Dot, Height, AtHeight, Confine, Xyz, Parts, Floor,
    >,
) -> (r: u32)
    requires
        arith.total(),
        grid.wf(),
        p < sim_pos@.len(),
    ensures
        r < grid.num_cells,
        forall|m: ArithModel<S, P>| #[trigger]
            arith.computes(m) ==> r == particle_cell(
                *grid,
                m.all_grid_coords(*grid, sim_pos@),
                p,
            ),
{
    arith.collision_flat_packed(grid, sim_pos[p as usize])
}

/// Counts the digit of the particle at place `gid[0]`.
pub fn coll_radix_digit_count<
    S: Copy,
    P: Copy,
    Lt: Fn(S, S) -> bool,
    Le: Fn(S, S) -> bool,
    Eq: Fn(S, S) -> bool,
    Plus: Fn(S, S) -> S,
    Minus: Fn(S, S) -> S,
    Times: Fn(S, S) -> S,
    Over: Fn(S, S) -> S,
    Min: Fn(S, S) -> S,
    Max: Fn(S, S) -> S,
    Neg: Fn(S) -> S,
    Sqrt: Fn(S) -> S,
    Exp: Fn(S) -> S,
    VPlus: Fn(P, P) -> P,
    VMinus: Fn(P, P) -> P,
    VTimes: Fn(P, S) -> P,
    VOver: Fn(P, S) -> P,
    VNeg: Fn(P) -> P,
    Dot: Fn(P, P) -> S,
    Height: Fn(P) -> S,
    AtHeight: Fn(P, S) -> P,
    Confine: Fn(P, S) -> P,
    Xyz: Fn([S; 4]) -> P,
    Parts: Fn(P) -> [S; 3],
    Floor: Fn(S) -> i32,
>(
    gid: [u32; 3],
    coll_grid_u: &CollGridUniform<S>,
    coll_radix_pass_u: &CollRadixPassUniform,
    sim_pos: &[P],
    coll_radix_hist: &mut [u32; 256],
    coll_perm_ping: &[u32],
    coll_perm_pong: &[u32],
    arith: &Arith<
        S, P, Lt, Le, Eq, Plus, Minus, Times, Over, Min, Max, Neg, Sqrt, Exp, VPlus, VMinus,
        VTimes, VOver, VNeg, Dot, Height, AtHeight, Confine, Xyz, Parts, Floor,
    >,
)
    requires
        arith.total(),
        gid@[0] < coll_grid_u.num_particles ==> {
            let perm = pass_input(coll_perm_ping@, coll_perm_pong@, coll_radix_pass_u.data@[0]);
            &&& coll_grid_u.wf()
            &&& coll_radix_pass_u.data@[0] < 4
            &&& gid@[0] < perm.len()
            &&& perm[gid@[0] as int] < sim_pos@.len()
        },
    ensures
        gid@[0] >= coll_grid_u.num_particles ==> final(coll_radix_hist)@ == old(coll_radix_hist)@,
        gid@[0] < coll_grid_u.num_particles ==> forall|m: ArithModel<S, P>| #[trigger]
            arith.computes(m) ==> final(coll_radix_hist)@ == count_step(
                old(coll_radix_hist)@,
                place_digit(
                    *coll_grid_u,
                    m.all_grid_coords(*coll_grid_u, sim_pos@),
                    pass_input(coll_perm_ping@, coll_perm_pong@, coll_radix_pass_u.data@[0]),
                    coll_radix_pass_u.data@[0],
                    gid@[0] as int,
                ),
            ),
{
    if gid[0] >= coll_grid_u.num_particles {
        return ;
    }
    let in_idx: usize = gid[0] as usize;
    let rd_pass: u32 = coll_radix_pass_u.data[0];
    let pj: u32 = perm_read(coll_perm_ping, coll_perm_pong, in_idx, reads_pong(rd_pass));
    let f: u32 = cell_of_particle(coll_grid_u, sim_pos, pj, arith);
    let digit: usize = radix_digit(f, rd_pass);
    atom::add_u32(&mut coll_radix_hist[digit], 1);
}

/// The sum of the first `d` bins.
pub open spec fn bins_below(hist: Seq<u32>, d: int) -> int
    decreases d,
{
    if d <= 0 {
        0
    } else {
        bins_below(hist, d - 1) + hist[d - 1]
    }
}

/// The sums of fewer bins are no larger.
pub proof fn lemma_bins_below_grow(hist: Seq<u32>, c: int, d: int)
    requires
        0 <= c <= d,
    ensures
        0 <= bins_below(hist, c) <= bins_below(hist, d),
    decreases d,
{
    if d > 0 {
        if c < d {
            lemma_bins_below_grow(hist, c, d - 1);
        } else {
            lemma_bins_below_grow(hist, c - 1, d - 1);
        }
    }
}

/// Turns the histogram into the first place of each digit. One invocation does the work.
pub fn coll_radix_exclusive_bases_heads(
    gid: [u32; 3],
    coll_radix_hist: &[u32; 256],
    coll_radix_head: &mut [u32; 256],
)
    requires
        gid@ == seq![0u32, 0u32, 0u32] ==> bins_below(coll_radix_hist@, 256) <= u32::MAX,
    ensures
        gid@ == seq![0u32, 0u32, 0u32] ==> forall|d: int|
            0 <= d < 256 ==> #[trigger] final(coll_radix_head)@[d] == bins_below(
                coll_radix_hist@,
                d,
            ),
        gid@ != seq![0u32, 0u32, 0u32] ==> final(coll_radix_head)@ == old(coll_radix_head)@,
{
    if gid[0] != 0 || gid[1] != 0 || gid[2] != 0 {
        return ;
    }
    assert(gid@ =~= seq![0u32, 0u32, 0u32]);
    let mut acc: u32 = 0;
    let mut d: usize = 0;
    while d < 256
        invariant
            d <= 256,
            acc == bins_below(coll_radix_hist@, d as int),
            bins_below(coll_radix_hist@, 256) <= u32::MAX,
            forall|k: int|
                0 <= k < d ==> #[trigger] coll_radix_head@[k] == bins_below(coll_radix_hist@, k),
        decreases 256 - d,
    {
        let c: u32 = atom::load_u32(&coll_radix_hist[d]);
        atom::store_u32(&mut coll_radix_head[d], acc);
        proof {
            lemma_bins_below_grow(coll_radix_hist@, d + 1, 256);
        }
        acc = acc + c;
        d = d + 1;
    }
}

/// The permutation buffers and the next places after the particle at place `k` was moved to the next
/// place of its digit: what is read, what is written, and the places.
pub open spec fn scatter_step<S>(
    grid: CollGridUniform<S>,
    sim_cell: Seq<[i32; 3]>,
    perm: Seq<u32>,
    out: Seq<u32>,
    head: Seq<u32>,
    pass: u32,
    k: int,
) -> (Seq<u32>, Seq<u32>, Seq<u32>) {
    let d = place_digit(grid, sim_cell, perm, pass, k);
    (perm, out.update(head[d] as int, perm[k]), count_step(head, d))
}

/// Moves the particle at place `gid[0]` to the next place of its digit, in the other buffer. The
/// operations are functions.
pub fn coll_radix_digit_scatter<
    S: Copy,
    P: Copy,
    Lt: Fn(S, S) -> bool,
    Le: Fn(S, S) -> bool,
    Eq: Fn(S, S) -> bool,
    Plus: Fn(S, S) -> S,
    Minus: Fn(S, S) -> S,
    Times: Fn(S, S) -> S,
    Over: Fn(S, S) -> S,
    Min: Fn(S, S) -> S,
    Max: Fn(S, S) -> S,
    Neg: Fn(S) -> S,
    Sqrt: Fn(S) -> S,
    Exp: Fn(S) -> S,
    VPlus: Fn(P, P) -> P,
    VMinus: Fn(P, P) -> P,
    VTimes: Fn(P, S) -> P,
    VOver: Fn(P, S) -> P,
    VNeg: Fn(P) -> P,
    Dot: Fn(P, P) -> S,
    Height: Fn(P) -> S,
    AtHeight: Fn(P, S) -> P,
    Confine: Fn(P, S) -> P,
    Xyz: Fn([S; 4]) -> P,
    Parts: Fn(P) -> [S; 3],
    Floor: Fn(S) -> i32,
>(
    gid: [u32; 3],
    coll_grid_u: &CollGridUniform<S>,
    coll_radix_pass_u: &CollRadixPassUniform,
    sim_pos: &[P],
    coll_radix_head: &mut [u32; 256],
    coll_perm_ping: &mut [u32],
    coll_perm_pong: &mut [u32],
    arith: &Arith<
        S, P, Lt, Le, Eq, Plus, Minus, Times, Over, Min, Max, Neg, Sqrt, Exp, VPlus, VMinus,
        VTimes, VOver, VNeg, Dot, Height, AtHeight, Confine, Xyz, Parts, Floor,
    >,
)
    requires
        arith.total(),
        gid@[0] < coll_grid_u.num_particles ==> {
            let pass = coll_radix_pass_u.data@[0];
            let perm = pass_input(old(coll_perm_ping)@, old(coll_perm_pong)@, pass);
            let out = pass_input(old(coll_perm_pong)@, old(coll_perm_ping)@, pass);
            &&& coll_grid_u.wf()
            &&& pass < 4
            &&& gid@[0] < perm.len()
            &&& perm[gid@[0] as int] < sim_pos@.len()
            &&& exists|m: ArithModel<S, P>| #[trigger] arith.computes(m)
            &&& forall|m: ArithModel<S, P>| #[trigger]
                arith.computes(m) ==> old(coll_radix_head)@[place_digit(
                    *coll_grid_u,
                    m.all_grid_coords(*coll_grid_u, sim_pos@),
                    perm,
                    pass,
                    gid@[0] as int,
                )] < out.len()
        },
    ensures
        gid@[0] >= coll_grid_u.num_particles ==> {
            &&& final(coll_radix_head)@ == old(coll_radix_head)@
            &&& final(coll_perm_ping)@ == old(coll_perm_ping)@
            &&& final(coll_perm_pong)@ == old(coll_perm_pong)@
        },
        gid@[0] < coll_grid_u.num_particles ==> forall|m: ArithModel<S, P>| #[trigger]
            arith.computes(m) ==> {
                let pass = coll_radix_pass_u.data@[0];
                (
                    pass_input(final(coll_perm_ping)@, final(coll_perm_pong)@, pass),
                    pass_input(final(coll_perm_pong)@, final(coll_perm_ping)@, pass),
                    final(coll_radix_head)@,
                ) == scatter_step(
                    *coll_grid_u,
                    m.all_grid_coords(*coll_grid_u, sim_pos@),
                    pass_input(old(coll_perm_ping)@, old(coll_perm_pong)@, pass),
                    pass_input(old(coll_perm_pong)@, old(coll_perm_ping)@, pass),
                    old(coll_radix_head)@,
                    pass,
                    gid@[0] as int,
                )
            },
{
    if gid[0] >= coll_grid_u.num_particles {
        return ;
    }
    let in_idx: usize = gid[0] as usize;
    let rd_pass: u32 = coll_radix_pass_u.data[0];
    let from_pong = reads_pong(rd_pass);
    let pj: u32 = perm_read(coll_perm_ping, coll_perm_pong, in_idx, from_pong);
    let f: u32 = cell_of_particle(coll_grid_u, sim_pos, pj, arith);
    let digit: usize = radix_digit(f, rd_pass);
    proof {
        let m = choose|m: ArithModel<S, P>| #[trigger] arith.computes(m);
        assert(digit == place_digit(
            *coll_grid_u,
            m.all_grid_coords(*coll_grid_u, sim_pos@),
            pass_input(coll_perm_ping@, coll_perm_pong@, rd_pass),
            rd_pass,
            gid@[0] as int,
        ));
    }
    let tgt: usize = atom::add_u32(&mut coll_radix_head[digit], 1) as usize;
    if from_pong {
        coll_perm_ping[tgt] = pj;
    } else {
        coll_perm_pong[tgt] = pj;
    }
}

/// Place `k` begins a run of particles of one cell.
pub open spec fn run_starts<S>(
    grid: CollGridUniform<S>,
    sim_cell: Seq<[i32; 3]>,
    perm: Seq<u32>,
    k: int,
) -> bool {
    k == 0 || cell_at(grid, sim_cell, perm, k - 1) != cell_at(grid, sim_cell, perm, k)
}

/// Place `k` is the last of a run of particles of one cell.
pub open spec fn run_ends<S>(
    grid: CollGridUniform<S>,
    sim_cell: Seq<[i32; 3]>,
    perm: Seq<u32>,
    k: int,
) -> bool {
    k == grid.num_particles - 1 || cell_at(grid, sim_cell, perm, k + 1) != cell_at(
        grid,
        sim_cell,
        perm,
        k,
    )
}

/// The table of range starts after place `k` was looked at.
pub open spec fn start_step<S>(
    grid: CollGridUniform<S>,
    sim_cell: Seq<[i32; 3]>,
    perm: Seq<u32>,
    start: Seq<u32>,
    k: u32,
) -> Seq<u32> {
    if run_starts(grid, sim_cell, perm, k as int) {
        start.update(cell_at(grid, sim_cell, perm, k as int), k)
    } else {
        start
    }
}

/// The table of range ends after place `k` was looked at.
pub open spec fn end_step<S>(
    grid: CollGridUniform<S>,
    sim_cell: Seq<[i32; 3]>,
    perm: Seq<u32>,
    end: Seq<u32>,
    k: u32,
) -> Seq<u32> {
    if run_ends(grid, sim_cell, perm, k as int) {
        end.update(cell_at(grid, sim_cell, perm, k as int), (k + 1) as u32)
    } else {
        end
    }
}

/// Records where the run of a cell begins and ends, as far as place `gid[0]` shows it.
pub fn coll_sorted_build_cell_ranges<
    S: Copy,
    P: Copy,
    Lt: Fn(S, S) -> bool,
    Le: Fn(S, S) -> bool,
    Eq: Fn(S, S) -> bool,
    Plus: Fn(S, S) -> S,
    Minus: Fn(S, S) -> S,
    Times: Fn(S, S) -> S,
    Over: Fn(S, S) -> S,
    Min: Fn(S, S) -> S,
    Max: Fn(S, S) -> S,
    Neg: Fn(S) -> S,
    Sqrt: Fn(S) -> S,
    Exp: Fn(S) -> S,
    VPlus: Fn(P, P) -> P,
    VMinus: Fn(P, P) -> P,
    VTimes: Fn(P, S) -> P,
    VOver: Fn(P, S) -> P,
    VNeg: Fn(P) -> P,
    Dot: Fn(P, P) -> S,
    Height: Fn(P) -> S,
    AtHeight: Fn(P, S) -> P,
    Confine: Fn(P, S) -> P,
    Xyz: Fn([S; 4]) -> P,
    Parts: Fn(P) -> [S; 3],
    Floor: Fn(S) -> i32,
>(
    gid: [u32; 3],
    coll_grid_u: &CollGridUniform<S>,
    sim_pos: &[P],
    coll_perm_ping: &[u32],
    coll_perm_pong: &[u32],
    coll_cell_start: &mut [u32],
    coll_cell_end_exclusive: &mut [u32],
    arith: &Arith<
        S, P, Lt, Le, Eq, Plus, Minus, Times, Over, Min, Max, Neg, Sqrt, Exp, VPlus, VMinus,
        VTimes, VOver, VNeg, Dot, Height, AtHeight, Confine, Xyz, Parts, Floor,
    >,
)
    requires
        arith.total(),
        gid@[0] < coll_grid_u.num_particles ==> {
            let perm = sorted_perm(coll_perm_ping@, coll_perm_pong@, coll_grid_u.radix_digits);
            &&& coll_grid_u.wf()
            &&& coll_grid_u.num_particles <= perm.len()
            &&& forall|k: int|
                gid@[0] - 1 <= k <= gid@[0] + 1 && 0 <= k < coll_grid_u.num_particles
                    ==> #[trigger] perm[k] < sim_pos@.len()
            &&& coll_grid_u.num_cells <= old(coll_cell_start)@.len()
            &&& coll_grid_u.num_cells <= old(coll_cell_end_exclusive)@.len()
        },
    ensures
        final(coll_cell_start)@.len() == old(coll_cell_start)@.len(),
        final(coll_cell_end_exclusive)@.len() == old(coll_cell_end_exclusive)@.len(),
        gid@[0] >= coll_grid_u.num_particles ==> {
            &&& final(coll_cell_start)@ == old(coll_cell_start)@
            &&& final(coll_cell_end_exclusive)@ == old(coll_cell_end_exclusive)@
        },
        gid@[0] < coll_grid_u.num_particles ==> forall|m: ArithModel<S, P>| #[trigger]
            arith.computes(m) ==> {
                let perm = sorted_perm(coll_perm_ping@, coll_perm_pong@, coll_grid_u.radix_digits);
                let sim_cell = m.all_grid_coords(*coll_grid_u, sim_pos@);
                &&& final(coll_cell_start)@ == start_step(
                    *coll_grid_u,
                    sim_cell,
                    perm,
                    old(coll_cell_start)@,
                    gid@[0],
                )
                &&& final(coll_cell_end_exclusive)@ == end_step(
                    *coll_grid_u,
                    sim_cell,
                    perm,
                    old(coll_cell_end_exclusive)@,
                    gid@[0],
                )
            },
{
    let np: u32 = coll_grid_u.num_particles;
    if gid[0] >= np {
        return ;
    }
    let i: usize = gid[0] as usize;
    let digits: u32 = coll_grid_u.radix_digits;
    let here: u32 = perm_final_read(coll_perm_ping, coll_perm_pong, i, digits);
    let cid_here: u32 = cell_of_particle(coll_grid_u, sim_pos, here, arith);
    let mut run_start = i == 0;
    if !run_start {
        let before: u32 = perm_final_read(coll_perm_ping, coll_perm_pong, i - 1, digits);
        run_start = cell_of_particle(coll_grid_u, sim_pos, before, arith) != cid_here;
    }
    let mut run_end = gid[0] == np - 1;
    if !run_end {
        let after: u32 = perm_final_read(coll_perm_ping, coll_perm_pong, i + 1, digits);
        run_end = cell_of_particle(coll_grid_u, sim_pos, after, arith) != cid_here;
    }
    if run_start {
        atom::store_u32(&mut coll_cell_start[cid_here as usize], gid[0]);
    }
    if run_end {
        atom::store_u32(&mut coll_cell_end_exclusive[cid_here as usize], gid[0] + 1);
    }
}

/// The accumulator after `d` was added to the three cells of particle `p`.
pub open spec fn add3(acc: Seq<i32>, p: int, d: Seq<i32>) -> Seq<i32> {
    acc.update(p * 3, wrapping_sum_i32(acc[p * 3], d[0]) as i32).update(
        p * 3 + 1,
        wrapping_sum_i32(acc[p * 3 + 1], d[1]) as i32,
    ).update(p * 3 + 2, wrapping_sum_i32(acc[p * 3 + 2], d[2]) as i32)
}

fn accumulate3(acc: &mut [i32], p: usize, d: [i32; 3])
    requires
        p * 3 + 2 < old(acc)@.len(),
    ensures
        final(acc)@ == add3(old(acc)@, p as int, d@),
{
    atom::add_i32(&mut acc[p * 3], d[0]);
    atom::add_i32(&mut acc[p * 3 + 1], d[1]);
    atom::add_i32(&mut acc[p * 3 + 2], d[2]);
}

/// What the separation of particles `i` and `j` is decided from.
pub open spec fn pair_input<S, P>(
    params: SimParams<S>,
    sim: Seq<P>,
    rest: Seq<P>,
    inv_mass: Seq<S>,
    zero: S,
    i: int,
    j: int,
) -> PairInput<S, P> {
    PairInput {
        p_i: sim[i],
        p_j: sim[j],
        rest_i: rest[i],
        rest_j: rest[j],
        w_i: seen_inv_mass(params, inv_mass, zero, i),
        w_j: seen_inv_mass(params, inv_mass, zero, j),
    }
}

/// The accumulator after `d` was added for particle `p`, where the particle may move.
pub open spec fn add3_if(moves: bool, acc: Seq<i32>, p: int, d: [i32; 3]) -> Seq<i32> {
    if moves {
        add3(acc, p, d@)
    } else {
        acc
    }
}

/// The accumulator after the pair `(i, j)` was looked at: each particle whose inverse mass is
/// positive takes its own displacement, in fixed point, and a pair without contact leaves no trace.
pub open spec fn pair_effect<S, P>(
    m: ArithModel<S, P>,
    fix: spec_fn(P) -> [i32; 3],
    params: SimParams<S>,
    sim: Seq<P>,
    rest: Seq<P>,
    inv_mass: Seq<S>,
    acc: Seq<i32>,
    i: int,
    j: int,
) -> Seq<i32> {
    let e = pair_input(params, sim, rest, inv_mass, m.k.zero, i, j);
    match m.separated(e, params.thickness, params.coll_scale) {
        None => acc,
        Some((di, dj)) => add3_if(
            (m.lt)(m.k.zero, e.w_j),
            add3_if((m.lt)(m.k.zero, e.w_i), acc, i, fix(di)),
            j,
            fix(dj),
        ),
    }
}

/// Accumulates the separation of one pair; `fixed` gives a displacement in fixed point.
pub fn narrow_self_collision_pair<
    S: Copy,
    P: Copy,
    X: Fn(P) -> [i32; 3],
    Lt: Fn(S, S) -> bool,
    Le: Fn(S, S) -> bool,
    Eq: Fn(S, S) -> bool,
    Plus: Fn(S, S) -> S,
    Minus: Fn(S, S) -> S,
    Times: Fn(S, S) -> S,
    Over: Fn(S, S) -> S,
    Min: Fn(S, S) -> S,
    Max: Fn(S, S) -> S,
    Neg: Fn(S) -> S,
    Sqrt: Fn(S) -> S,
    Exp: Fn(S) -> S,
    VPlus: Fn(P, P) -> P,
    VMinus: Fn(P, P) -> P,
    VTimes: Fn(P, S) -> P,
    VOver: Fn(P, S) -> P,
    VNeg: Fn(P) -> P,
    Dot: Fn(P, P) -> S,
    Height: Fn(P) -> S,
    AtHeight: Fn(P, S) -> P,
    Confine: Fn(P, S) -> P,
    Xyz: Fn([S; 4]) -> P,
    Parts: Fn(P) -> [S; 3],
    Floor: Fn(S) -> i32,
>(
    params: &SimParams<S>,
    sim_pos: &[P],
    rest_pos: &[P],
    inv_mass: &[S],
    atomic_coll: &mut [i32],
    i: u32,
    j: u32,
    fixed: &X,
    arith: &Arith<
        S, P, Lt, Le, Eq, Plus, Minus, Times, Over, Min, Max, Neg, Sqrt, Exp, VPlus, VMinus,
        VTimes, VOver, VNeg, Dot, Height, AtHeight, Confine, Xyz, Parts, Floor,
    >,
)
    requires
        arith.total(),
        forall|d: P| #[trigger] fixed.requires((d,)),
        i < sim_pos@.len() && j < sim_pos@.len(),
        i < rest_pos@.len() && j < rest_pos@.len(),
        i < inv_mass@.len() && j < inv_mass@.len(),
        i * 3 + 2 < old(atomic_coll)@.len() && j * 3 + 2 < old(atomic_coll)@.len(),
    ensures
        final(atomic_coll)@.len() == old(atomic_coll)@.len(),
        forall|m: ArithModel<S, P>, fix: spec_fn(P) -> [i32; 3]| #[trigger]
            arith.computes(m) && #[trigger] gives(*fixed, fix) ==> final(atomic_coll)@
                == pair_effect(
                m,
                fix,
                *params,
                sim_pos@,
                rest_pos@,
                inv_mass@,
                old(atomic_coll)@,
                i as int,
                j as int,
            ),
{
    let zero = arith.k.zero;
    let w_i = effective_inv_mass(params, i, inv_mass[i as usize], zero);
    let w_j = effective_inv_mass(params, j, inv_mass[j as usize], zero);
    let (hit, di, dj) = arith.self_collision_separation(
        params.thickness,
        params.coll_scale,
        sim_pos[i as usize],
        sim_pos[j as usize],
        rest_pos[i as usize],
        rest_pos[j as usize],
        w_i,
        w_j,
    );
    if !hit {
        return ;
    }
    if (arith.lt)(zero, w_i) {
        let d = fixed(di);
        accumulate3(atomic_coll, i as usize, d);
    }
    if (arith.lt)(zero, w_j) {
        let d = fixed(dj);
        accumulate3(atomic_coll, j as usize, d);
    }
}

/// The particles after `i` among places `s .. e` of the permutation, in order.
pub open spec fn range_partners(perm: Seq<u32>, s: int, e: int, i: int) -> Seq<u32>
    decreases e - s,
{
    if e <= s {
        seq![]
    } else if perm[e - 1] > i {
        range_partners(perm, s, e - 1, i).push(perm[e - 1])
    } else {
        range_partners(perm, s, e - 1, i)
    }
}

/// The particles after `i` in cell `nf`, in order; none where `nf` is no cell or an empty one.
pub open spec fn cell_partners(
    start: Seq<u32>,
    end: Seq<u32>,
    perm: Seq<u32>,
    num_cells: u32,
    nf: int,
    i: int,
) -> Seq<u32> {
    if nf < num_cells && start[nf] != EMPTY_CELL {
        range_partners(perm, start[nf] as int, end[nf] as int, i)
    } else {
        seq![]
    }
}

/// Offset number `k` of the 27 around a cell: x runs fastest, z slowest.
pub open spec fn offset_of(k: int) -> (int, int, int) {
    (k % 3 - 1, (k / 3) % 3 - 1, k / 9 - 1)
}

/// The particles after `i` in the first `k` cells around `cell`, in the order of the visits.
pub open spec fn partners<S>(
    grid: CollGridUniform<S>,
    start: Seq<u32>,
    end: Seq<u32>,
    perm: Seq<u32>,
    cell: int,
    i: int,
    k: int,
) -> Seq<u32>
    decreases k,
{
    if k <= 0 {
        seq![]
    } else {
        let (dx, dy, dz) = offset_of(k - 1);
        partners(grid, start, end, perm, cell, i, k - 1) + cell_partners(
            start,
            end,
            perm,
            grid.num_cells,
            neighbor_of(grid, cell, dx, dy, dz),
            i,
        )
    }
}

/// The accumulator after particle `i` was looked at together with each of `js` in turn.
pub open spec fn pairs_effect<S, P>(
    m: ArithModel<S, P>,
    fix: spec_fn(P) -> [i32; 3],
    params: SimParams<S>,
    sim: Seq<P>,
    rest: Seq<P>,
    inv_mass: Seq<S>,
    acc: Seq<i32>,
    i: int,
    js: Seq<u32>,
) -> Seq<i32>
    decreases js.len(),
{
    if js.len() == 0 {
        acc
    } else {
        pair_effect(
            m,
            fix,
            params,
            sim,
            rest,
            inv_mass,
            pairs_effect(m, fix, params, sim, rest, inv_mass, acc, i, js.drop_last()),
            i,
            js.last() as int,
        )
    }
}

/// Every place of every nonempty cell's range lies in the permutation.
pub open spec fn ranges_in_perm(start: Seq<u32>, end: Seq<u32>, num_cells: u32, len: nat) -> bool {
    forall|c: int| 0 <= c < num_cells && #[trigger] start[c] != EMPTY_CELL ==> end[c] <= len
}

/// Separates particle `gid[0]` from the particles after it in its own cell and the cells around,
/// unless collisions are off; `fixed` gives a displacement in fixed point.
pub fn collide_grid_cells<
    S: Copy,
    P: Copy,
    X: Fn(P) -> [i32; 3],
    Lt: Fn(S, S) -> bool,
    Le: Fn(S, S) -> bool,
    Eq: Fn(S, S) -> bool,
    Plus: Fn(S, S) -> S,
    Minus: Fn(S, S) -> S,
    Times: Fn(S, S) -> S,
    Over: Fn(S, S) -> S,
    Min: Fn(S, S) -> S,
    Max: Fn(S, S) -> S,
    Neg: Fn(S) -> S,
    Sqrt: Fn(S) -> S,
    Exp: Fn(S) -> S,
    VPlus: Fn(P, P) -> P,
    VMinus: Fn(P, P) -> P,
    VTimes: Fn(P, S) -> P,
    VOver: Fn(P, S) -> P,
    VNeg: Fn(P) -> P,
    Dot: Fn(P, P) -> S,
    Height: Fn(P) -> S,
    AtHeight: Fn(P, S) -> P,
    Confine: Fn(P, S) -> P,
    Xyz: Fn([S; 4]) -> P,
    Parts: Fn(P) -> [S; 3],
    Floor: Fn(S) -> i32,
>(
    gid: [u32; 3],
    params: &SimParams<S>,
    coll_grid_u: &CollGridUniform<S>,
    sim_pos: &[P],
    rest_pos: &[P],
    inv_mass: &[S],
    atomic_coll: &mut [i32],
    coll_perm_ping: &[u32],
    coll_perm_pong: &[u32],
    coll_cell_start: &[u32],
    coll_cell_end_exclusive: &[u32],
    fixed: &X,
    arith: &Arith<
        S, P, Lt, Le, Eq, Plus, Minus, Times, Over, Min, Max, Neg, Sqrt, Exp, VPlus, VMinus,
        VTimes, VOver, VNeg, Dot, Height, AtHeight, Confine, Xyz, Parts, Floor,
    >,
)
    requires
        arith.total(),
        forall|d: P| #[trigger] fixed.requires((d,)),
        gid@[0] < params.num_particles ==> {
            let perm = sorted_perm(coll_perm_ping@, coll_perm_pong@, coll_grid_u.radix_digits);
            &&& coll_grid_u.wf()
            &&& gid@[0] < inv_mass@.len()
            &&& inv_mass@.len() <= sim_pos@.len()
            &&& inv_mass@.len() <= rest_pos@.len()
            &&& inv_mass@.len() * 3 <= old(atomic_coll)@.len()
            &&& coll_grid_u.num_cells <= coll_cell_start@.len()
            &&& coll_grid_u.num_cells <= coll_cell_end_exclusive@.len()
            &&& ranges_in_perm(
                coll_cell_start@,
                coll_cell_end_exclusive@,
                coll_grid_u.num_cells,
                perm.len(),
            )
            &&& forall|k: int|
                0 <= k < perm.len() && #[trigger] perm[k] > gid@[0] ==> perm[k] < inv_mass@.len()
        },
    ensures
        final(atomic_coll)@.len() == old(atomic_coll)@.len(),
        ({
            let perm = sorted_perm(coll_perm_ping@, coll_perm_pong@, coll_grid_u.radix_digits);
            let i = gid@[0] as int;
            if gid@[0] >= params.num_particles {
                final(atomic_coll)@ == old(atomic_coll)@
            } else {
                forall|m: ArithModel<S, P>, fix: spec_fn(P) -> [i32; 3]| #[trigger]
                    arith.computes(m) && #[trigger] gives(*fixed, fix) ==> final(atomic_coll)@
                        == if (m.le)(params.coll_scale, m.k.zero) {
                        old(atomic_coll)@
                    } else {
                        pairs_effect(
                            m,
                            fix,
                            *params,
                            sim_pos@,
                            rest_pos@,
                            inv_mass@,
                            old(atomic_coll)@,
                            i,
                            partners(
                                *coll_grid_u,
                                coll_cell_start@,
                                coll_cell_end_exclusive@,
                                perm,
                                cell_of(*coll_grid_u, m.grid_coords(*coll_grid_u, sim_pos@[i])),
                                i,
                                27,
                            ),
                        )
                    }
            }
        }),
{
    if gid[0] >= params.num_particles {
        return ;
    }
    if (arith.le)(params.coll_scale, arith.k.zero) {
        return ;
    }
    let i: usize = gid[0] as usize;
    let my_cell: u32 = arith.collision_flat_packed(coll_grid_u, sim_pos[i]);
    let ghost perm = sorted_perm(coll_perm_ping@, coll_perm_pong@, coll_grid_u.radix_digits);
    let ghost start = coll_cell_start@;
    let ghost end = coll_cell_end_exclusive@;
    let ghost acc0 = atomic_coll@;
    let ghost mut js: Seq<u32> = seq![];
    let mut k: i32 = 0;
    while k < 27
        invariant
            0 <= k <= 27,
            coll_grid_u.wf(),
            my_cell < coll_grid_u.num_cells,
            i == gid@[0],
            arith.total(),
            forall|d: P| #[trigger] fixed.requires((d,)),
            i < inv_mass@.len(),
            inv_mass@.len() <= sim_pos@.len(),
            inv_mass@.len() <= rest_pos@.len(),
            perm == sorted_perm(coll_perm_ping@, coll_perm_pong@, coll_grid_u.radix_digits),
            start == coll_cell_start@,
            end == coll_cell_end_exclusive@,
            atomic_coll@.len() == acc0.len(),
            inv_mass@.len() * 3 <= acc0.len(),
            coll_grid_u.num_cells <= start.len(),
            coll_grid_u.num_cells <= end.len(),
            ranges_in_perm(start, end, coll_grid_u.num_cells, perm.len()),
            forall|m: int|
                0 <= m < perm.len() && #[trigger] perm[m] > gid@[0] ==> perm[m] < inv_mass@.len(),
            js == partners(*coll_grid_u, start, end, perm, my_cell as int, i as int, k as int),
            forall|m: ArithModel<S, P>, fix: spec_fn(P) -> [i32; 3]| #[trigger]
                arith.computes(m) && #[trigger] gives(*fixed, fix) ==> atomic_coll@ == pairs_effect(
                    m,
                    fix,
                    *params,
                    sim_pos@,
                    rest_pos@,
                    inv_mass@,
                    acc0,
                    i as int,
                    js,
                ),
        decreases 27 - k,
    {
        let dx: i32 = k % 3 - 1;
        let dy: i32 = (k / 3) % 3 - 1;
        let dz: i32 = k / 9 - 1;
        proof {
            law_cell_coords_in_grid(*coll_grid_u, my_cell as int);
            law_neighbor_shifts_coords(
                *coll_grid_u,
                my_cell as int,
                dx as int,
                dy as int,
                dz as int,
            );
            lemma_plane_bound(*coll_grid_u);
        }
        let nf: u32 = neighbor_flat(coll_grid_u, my_cell, dx, dy, dz);
        let ghost before = js;
        if nf < coll_grid_u.num_cells {
            let s: u32 = atom::load_u32(&coll_cell_start[nf as usize]);
            let e: u32 = atom::load_u32(&coll_cell_end_exclusive[nf as usize]);
            if s != EMPTY_CELL {
                let mut idx: u32 = s;
                proof {
                    assert(js =~= before + range_partners(perm, s as int, s as int, i as int));
                    assert(start[nf as int] != EMPTY_CELL);
                }
                while idx < e
                    invariant
                        s <= idx,
                        e <= perm.len(),
                        s < e ==> idx <= e,
                        s >= e ==> idx == s,
                        i == gid@[0],
                        arith.total(),
                        forall|d: P| #[trigger] fixed.requires((d,)),
                        i < inv_mass@.len(),
                        inv_mass@.len() <= sim_pos@.len(),
                        inv_mass@.len() <= rest_pos@.len(),
                        perm == sorted_perm(
                            coll_perm_ping@,
                            coll_perm_pong@,
                            coll_grid_u.radix_digits,
                        ),
                        atomic_coll@.len() == acc0.len(),
                        inv_mass@.len() * 3 <= acc0.len(),
                        forall|m: int|
                            0 <= m < perm.len() && #[trigger] perm[m] > gid@[0] ==> perm[m]
                                < inv_mass@.len(),
                        js == before + range_partners(perm, s as int, idx as int, i as int),
                        forall|m: ArithModel<S, P>, fix: spec_fn(P) -> [i32; 3]| #[trigger]
                            arith.computes(m) && #[trigger] gives(*fixed, fix) ==> atomic_coll@ == pairs_effect(
                                m,
                                fix,
                                *params,
                                sim_pos@,
                                rest_pos@,
                                inv_mass@,
                                acc0,
                                i as int,
                                js,
                            ),
                    decreases e - idx,
                {
                    let j: u32 = perm_final_read(
                        coll_perm_ping,
                        coll_perm_pong,
                        idx as usize,
                        coll_grid_u.radix_digits,
                    );
                    if j > gid[0] {
                        narrow_self_collision_pair(
                            params,
                            sim_pos,
                            rest_pos,
                            inv_mass,
                            atomic_coll,
                            gid[0],
                            j,
                            fixed,
                            arith,
                        );
                        proof {
                            assert(js.push(j).drop_last() =~= js);
                            js = js.push(j);
                            assert(js =~= before + range_partners(
                                perm,
                                s as int,
                                idx + 1,
                                i as int,
                            ));
                        }
                    }
                    idx = idx + 1;
                }
                proof {
                    if s >= e {
                        assert(range_partners(perm, s as int, e as int, i as int) =~= seq![]);
                    }
                }
            }
        }
        proof {
            let cp = cell_partners(
                start,
                end,
                perm,
                coll_grid_u.num_cells,
                nf as int,
                i as int,
            );
            assert(offset_of(k as int) == (dx as int, dy as int, dz as int));
            assert(js =~= before + cp);
        }
        k = k + 1;
    }
}

proof fn lemma_plane_bound<S>(grid: CollGridUniform<S>)
    requires
        grid.wf(),
    ensures
        0 < grid.gx * grid.gy <= grid.num_cells,
{
    assert(0 < grid.gx * grid.gy <= grid.gx * grid.gy * grid.gz) by (nonlinear_arith)
        requires
            grid.gx > 0,
            grid.gy > 0,
            grid.gz >= 1,
    ;
}

/// Where the collisions of a particle at `x` move it, which add up to `sum`; a pinned one stays.
pub open spec fn kernel_displaced<S, P>(m: ArithModel<S, P>, w: S, x: P, sum: P) -> P {
    if (m.le)(w, m.k.zero) {
        x
    } else {
        m.displaced(x, sum)
    }
}

/// Moves particle `gid[0]` by what the collisions accumulated for it, limited along each axis, unless
/// the particle may not move. `unfixed` reads a fixed-point displacement.
pub fn collide_apply<
    S: Copy,
    P: Copy,
    X: Fn([i32; 3]) -> P,
    Lt: Fn(S, S) -> bool,
    Le: Fn(S, S) -> bool,
    Eq: Fn(S, S) -> bool,
    Plus: Fn(S, S) -> S,
    Minus: Fn(S, S) -> S,
    Times: Fn(S, S) -> S,
    Over: Fn(S, S) -> S,
    Min: Fn(S, S) -> S,
    Max: Fn(S, S) -> S,
    Neg: Fn(S) -> S,
    Sqrt: Fn(S) -> S,
    Exp: Fn(S) -> S,
    VPlus: Fn(P, P) -> P,
    VMinus: Fn(P, P) -> P,
    VTimes: Fn(P, S) -> P,
    VOver: Fn(P, S) -> P,
    VNeg: Fn(P) -> P,
    Dot: Fn(P, P) -> S,
    Height: Fn(P) -> S,
    AtHeight: Fn(P, S) -> P,
    Confine: Fn(P, S) -> P,
    Xyz: Fn([S; 4]) -> P,
    Parts: Fn(P) -> [S; 3],
    Floor: Fn(S) -> i32,
>(
    gid: [u32; 3],
    params: &SimParams<S>,
    sim_pos: &mut [P],
    inv_mass: &[S],
    atomic_coll: &[i32],
    unfixed: &X,
    arith: &Arith<
        S, P, Lt, Le, Eq, Plus, Minus, Times, Over, Min, Max, Neg, Sqrt, Exp, VPlus, VMinus,
        VTimes, VOver, VNeg, Dot, Height, AtHeight, Confine, Xyz, Parts, Floor,
    >,
)
    requires
        arith.total(),
        forall|c: [i32; 3]| #[trigger] unfixed.requires((c,)),
        gid@[0] < params.num_particles ==> {
            &&& gid@[0] < inv_mass@.len()
            &&& gid@[0] < old(sim_pos)@.len()
            &&& gid@[0] * 3 + 2 < atomic_coll@.len()
        },
    ensures
        ({
            let i = gid@[0] as int;
            let x = old(sim_pos)@[i];
            if gid@[0] >= params.num_particles {
                final(sim_pos)@ == old(sim_pos)@
            } else {
                &&& final(sim_pos)@ == old(sim_pos)@.update(i, final(sim_pos)@[i])
                &&& forall|m: ArithModel<S, P>, unfix: spec_fn([i32; 3]) -> P| #[trigger]
                    arith.computes(m) && #[trigger] gives(*unfixed, unfix) ==> final(sim_pos)@[i]
                        == kernel_displaced(
                        m,
                        seen_inv_mass(*params, inv_mass@, m.k.zero, i),
                        x,
                        unfix(cells3(atomic_coll@, i)),
                    )
            }
        }),
{
    if gid[0] >= params.num_particles {
        return ;
    }
    let i: usize = gid[0] as usize;
    let w = effective_inv_mass(params, gid[0], inv_mass[i], arith.k.zero);
    if (arith.le)(w, arith.k.zero) {
        assert(sim_pos@ =~= sim_pos@.update(i as int, sim_pos@[i as int]));
        return ;
    }
    let sum = load3(atomic_coll, i);
    let d = unfixed(sum);
    sim_pos[i] = arith.displace(sim_pos[i], d);
}

/// The three cells of particle `p`.
pub open spec fn cells3(acc: Seq<i32>, p: int) -> [i32; 3] {
    [acc[p * 3], acc[p * 3 + 1], acc[p * 3 + 2]]
}

fn load3(acc: &[i32], p: usize) -> (r: [i32; 3])
    requires
        p * 3 + 2 < acc@.len(),
    ensures
        r == cells3(acc@, p as int),
{
    assert(p * 3 + 2 < acc.len());
    [atom::load_i32(&acc[p * 3]), atom::load_i32(&acc[p * 3 + 1]), atom::load_i32(&acc[p * 3 + 2])]
}

/// Zeroes cell `gid[0]` of the accumulated normals, three cells a particle.
pub fn clear_norm_atomics<S>(gid: [u32; 3], params: &SimParams<S>, atomic_norm: &mut [i32])
    requires
        params.num_particles * 3 <= u32::MAX,
        gid@[0] < params.num_particles * 3 ==> gid@[0] < old(atomic_norm)@.len(),
    ensures
        final(atomic_norm)@ == if gid@[0] < params.num_particles * 3 {
            old(atomic_norm)@.update(gid@[0] as int, 0)
        } else {
            old(atomic_norm)@
        },
{
    if gid[0] < params.num_particles * 3 {
        atom::store_i32(&mut atomic_norm[gid[0] as usize], 0);
    }
}

/// The function `f` gives what `g` says of two vectors.
pub open spec fn gives_product<P, F: Fn(P, P) -> P>(f: F, g: spec_fn(P, P) -> P) -> bool {
    forall|a: P, b: P, r: P| #[trigger] f.ensures((a, b), r) ==> r == g(a, b)
}

/// The normal of a triangle: the product of the edges from the first corner to the other two.
pub open spec fn face_normal<S, P>(
    m: ArithModel<S, P>,
    cross: spec_fn(P, P) -> P,
    p0: P,
    p1: P,
    p2: P,
) -> P {
    cross((m.v_minus)(p1, p0), (m.v_minus)(p2, p0))
}

/// The accumulator after `d` was added for each of three particles.
pub open spec fn add_to_corners(
    acc: Seq<i32>,
    i0: int,
    i1: int,
    i2: int,
    d: Seq<i32>,
) -> Seq<i32> {
    add3(add3(add3(acc, i0, d), i1, d), i2, d)
}

/// Adds the normal of triangle `gid[0]`, in fixed point, to each of its corners. The normal is the
/// product `cross` of the edges from the first corner to the other two.
pub fn accumulate_normals<
    S: Copy,
    P: Copy,
    C: Fn(P, P) -> P,
    X: Fn(P) -> [i32; 3],
    Lt: Fn(S, S) -> bool,
    Le: Fn(S, S) -> bool,
    Eq: Fn(S, S) -> bool,
    Plus: Fn(S, S) -> S,
    Minus: Fn(S, S) -> S,
    Times: Fn(S, S) -> S,
    Over: Fn(S, S) -> S,
    Min: Fn(S, S) -> S,
    Max: Fn(S, S) -> S,
    Neg: Fn(S) -> S,
    Sqrt: Fn(S) -> S,
    Exp: Fn(S) -> S,
    VPlus: Fn(P, P) -> P,
    VMinus: Fn(P, P) -> P,
    VTimes: Fn(P, S) -> P,
    VOver: Fn(P, S) -> P,
    VNeg: Fn(P) -> P,
    Dot: Fn(P, P) -> S,
    Height: Fn(P) -> S,
    AtHeight: Fn(P, S) -> P,
    Confine: Fn(P, S) -> P,
    Xyz: Fn([S; 4]) -> P,
    Parts: Fn(P) -> [S; 3],
    Floor: Fn(S) -> i32,
>(
    gid: [u32; 3],
    params: &SimParams<S>,
    sim_pos: &[P],
    tri_indices: &[u32],
    atomic_norm: &mut [i32],
    cross: &C,
    fixed: &X,
    arith: &Arith<
        S, P, Lt, Le, Eq, Plus, Minus, Times, Over, Min, Max, Neg, Sqrt, Exp, VPlus, VMinus,
        VTimes, VOver, VNeg, Dot, Height, AtHeight, Confine, Xyz, Parts, Floor,
    >,
)
    requires
        arith.total(),
        forall|a: P, b: P| #[trigger] cross.requires((a, b)),
        forall|d: P| #[trigger] fixed.requires((d,)),
        gid@[0] < params.num_tris ==> {
            let t = gid@[0] as int;
            let i0 = tri_indices@[t * 3] as int;
            let i1 = tri_indices@[t * 3 + 1] as int;
            let i2 = tri_indices@[t * 3 + 2] as int;
            &&& t * 3 + 2 < tri_indices@.len()
            &&& i0 < sim_pos@.len() && i0 * 3 + 2 < old(atomic_norm)@.len()
            &&& i1 < sim_pos@.len() && i1 * 3 + 2 < old(atomic_norm)@.len()
            &&& i2 < sim_pos@.len() && i2 * 3 + 2 < old(atomic_norm)@.len()
        },
    ensures
        ({
            let t = gid@[0] as int;
            let i0 = tri_indices@[t * 3] as int;
            let i1 = tri_indices@[t * 3 + 1] as int;
            let i2 = tri_indices@[t * 3 + 2] as int;
            if gid@[0] >= params.num_tris {
                final(atomic_norm)@ == old(atomic_norm)@
            } else {
                exists|a: P, b: P, n: P, c: [i32; 3]|
                    {
                        &&& arith.v_minus.ensures((sim_pos@[i1], sim_pos@[i0]), a)
                        &&& arith.v_minus.ensures((sim_pos@[i2], sim_pos@[i0]), b)
                        &&& #[trigger] cross.ensures((a, b), n)
                        &&& #[trigger] fixed.ensures((n,), c)
                        &&& final(atomic_norm)@ == add_to_corners(
                            old(atomic_norm)@,
                            i0,
                            i1,
                            i2,
                            c@,
                        )
                    }
            }
        }),
        gid@[0] < params.num_tris ==> forall|
            m: ArithModel<S, P>,
            product: spec_fn(P, P) -> P,
            fix: spec_fn(P) -> [i32; 3],
        | #[trigger]
            arith.computes(m) && #[trigger] gives_product(*cross, product) && #[trigger] gives(
                *fixed,
                fix,
            ) ==> {
                let t = gid@[0] as int;
                let i0 = tri_indices@[t * 3] as int;
                let i1 = tri_indices@[t * 3 + 1] as int;
                let i2 = tri_indices@[t * 3 + 2] as int;
                final(atomic_norm)@ == add_to_corners(
                    old(atomic_norm)@,
                    i0,
                    i1,
                    i2,
                    fix(face_normal(m, product, sim_pos@[i0], sim_pos@[i1], sim_pos@[i2]))@,
                )
            },
{
    if gid[0] >= params.num_tris {
        return ;
    }
    let t: usize = gid[0] as usize;
    assert(t * 3 + 2 < tri_indices.len());
    let i0: usize = tri_indices[t * 3] as usize;
    let i1: usize = tri_indices[t * 3 + 1] as usize;
    let i2: usize = tri_indices[t * 3 + 2] as usize;
    let a = (arith.v_minus)(sim_pos[i1], sim_pos[i0]);
    let b = (arith.v_minus)(sim_pos[i2], sim_pos[i0]);
    let n = cross(a, b);
    let c = fixed(n);
    accumulate3(atomic_norm, i0, c);
    accumulate3(atomic_norm, i1, c);
    accumulate3(atomic_norm, i2, c);
}

/// Writes the render normal and position of particle `gid[0]`. The normal is the direction of the
/// accumulated one, which `unfixed` reads out of fixed point.
pub fn finalize_normals<
    S: Copy,
    P: Copy,
    X: Fn([i32; 3]) -> P,
    Lt: Fn(S, S) -> bool,
    Le: Fn(S, S) -> bool,
    Eq: Fn(S, S) -> bool,
    Plus: Fn(S, S) -> S,
    Minus: Fn(S, S) -> S,
    Times: Fn(S, S) -> S,
    Over: Fn(S, S) -> S,
    Min: Fn(S, S) -> S,
    Max: Fn(S, S) -> S,
    Neg: Fn(S) -> S,
    Sqrt: Fn(S) -> S,
    Exp: Fn(S) -> S,
    VPlus: Fn(P, P) -> P,
    VMinus: Fn(P, P) -> P,
    VTimes: Fn(P, S) -> P,
    VOver: Fn(P, S) -> P,
    VNeg: Fn(P) -> P,
    Dot: Fn(P, P) -> S,
    Height: Fn(P) -> S,
    AtHeight: Fn(P, S) -> P,
    Confine: Fn(P, S) -> P,
    Xyz: Fn([S; 4]) -> P,
    Parts: Fn(P) -> [S; 3],
    Floor: Fn(S) -> i32,
>(
    gid: [u32; 3],
    params: &SimParams<S>,
    sim_pos: &[P],
    render_positions: &mut [P],
    render_normals: &mut [P],
    atomic_norm: &[i32],
    unfixed: &X,
    arith: &Arith<
        S, P, Lt, Le, Eq, Plus, Minus, Times, Over, Min, Max, Neg, Sqrt, Exp, VPlus, VMinus,
        VTimes, VOver, VNeg, Dot, Height, AtHeight, Confine, Xyz, Parts, Floor,
    >,
)
    requires
        arith.total(),
        forall|c: [i32; 3]| #[trigger] unfixed.requires((c,)),
        gid@[0] < params.num_particles ==> {
            &&& gid@[0] < sim_pos@.len()
            &&& gid@[0] < old(render_positions)@.len()
            &&& gid@[0] < old(render_normals)@.len()
            &&& gid@[0] * 3 + 2 < atomic_norm@.len()
        },
    ensures
        ({
            let i = gid@[0] as int;
            if gid@[0] >= params.num_particles {
                &&& final(render_positions)@ == old(render_positions)@
                &&& final(render_normals)@ == old(render_normals)@
            } else {
                &&& final(render_positions)@ == old(render_positions)@.update(i, sim_pos@[i])
                &&& final(render_normals)@ == old(render_normals)@.update(
                    i,
                    final(render_normals)@[i],
                )
                &&& forall|m: ArithModel<S, P>, unfix: spec_fn([i32; 3]) -> P| #[trigger]
                    arith.computes(m) && #[trigger] gives(*unfixed, unfix)
                        ==> final(render_normals)@[i] == m.direction(
                        unfix(cells3(atomic_norm@, i)),
                    )
            }
        }),
{
    if gid[0] >= params.num_particles {
        return ;
    }
    let i: usize = gid[0] as usize;
    let sum = load3(atomic_norm, i);
    let n = unfixed(sum);
    render_normals[i] = arith.direction(n);
    render_positions[i] = sim_pos[i];
}

} // verus!
