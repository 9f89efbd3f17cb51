//! The solver on the CPU, over the formulas of [`Arith`].

use vstd::prelude::*;

use crate::arith::{Arith, ArithModel};
use crate::cloth_compute::SUBSTEPS;
use crate::substep::{
    colliding_substep, colliding_substeps, frame_with_collisions, frame_without_collisions,
    free_substep, free_substeps, integrated, resolve_collisions, resolved,
    substep_with_collisions, substep_without_collisions, tables, ConstraintTables, CpuModel, CpuOps,
    EdgeInput, EdgeOutput, PairInput,
};

pub use crate::substep::XpbdCpuTimeStepParams;

verus! {

/// What the collisions compute, with the formulas of `m`.
pub open spec fn collision_model<S, P>(
    m: ArithModel<S, P>,
    thickness: S,
    coll_scale: S,
) -> CpuModel<S, P> {
    CpuModel {
        positive: |w: S| (m.lt)(m.k.zero, w),
        held: |w: S| (m.le)(w, m.k.zero),
        predict: |x: P, v: P| (x, v),
        pull: |x: P| x,
        solve: |e: EdgeInput<S, P>| None,
        separate: |e: PairInput<S, P>| m.separated(e, thickness, coll_scale),
        plus: |x: P, y: P| (m.v_plus)(x, y),
        displace: |x: P, c: P| m.displaced(x, c),
        velocity: |x: P, prev: P| x,
    }
}

/// What the solver computes, with the formulas of `m`.
pub open spec fn cpu_model<S, P>(
    m: ArithModel<S, P>,
    p: XpbdCpuTimeStepParams<S, P>,
    thickness: S,
    coll_scale: S,
) -> CpuModel<S, P> {
    CpuModel {
        predict: |x: P, v: P| m.fallen(x, v, p),
        pull: |x: P| m.attracted(x, p),
        solve: |e: EdgeInput<S, P>| m.relaxed(e, p),
        velocity: |x: P, prev: P|
            m.velocity(x, prev, p.inv_dt, p.linear_drag_per_sec, p.dt),
        ..collision_model(m, thickness, coll_scale)
    }
}

/// Moves colliding particles apart, as the narrow phase of the kernels does: each pair by the same
/// separation. All pairs are looked at in the positions before, and each particle is displaced once,
/// by what its collisions add up to, limited along each axis.
pub fn self_collision_resolve<
    S: Copy,
    P: Copy,
    Lt: Fn(S, S) -> bool,
    Le: Fn(S, S) -> bool,
    Eq: Fn(S, S) -> bool,
    Plus: Fn(S, S) -> S,
    Minus: Fn(S, S) -> S,
    Times: Fn(S, S) -> S,
    Over: Fn(S, S) -> S,
    Min: Fn(S, S) -> S,
    Max: Fn(S, S) -> S,
    Neg: Fn(S) -> S,
    Sqrt: Fn(S) -> S,
    Exp: Fn(S) -> S,
    VPlus: Fn(P, P) -> P,
    VMinus: Fn(P, P) -> P,
    VTimes: Fn(P, S) -> P,
    VOver: Fn(P, S) -> P,
    VNeg: Fn(P) -> P,
    Dot: Fn(P, P) -> S,
    Height: Fn(P) -> S,
    AtHeight: Fn(P, S) -> P,
    Confine: Fn(P, S) -> P,
    Xyz: Fn([S; 4]) -> P,
    Parts: Fn(P) -> [S; 3],
    Floor: Fn(S) -> i32,
>(
    sim_pos: &mut [P],
    inv_mass: &[S],
    rest_pos: &[P],
    thickness: S,
    coll_scale: S,
    arith: &Arith<
        S, P, Lt, Le, Eq, Plus, Minus, Times, Over, Min, Max, Neg, Sqrt, Exp, VPlus, VMinus,
        VTimes, VOver, VNeg, Dot, Height, AtHeight, Confine, Xyz, Parts, Floor,
    >,
)
    requires
        arith.total(),
        inv_mass@.len() == old(sim_pos)@.len(),
        rest_pos@.len() == old(sim_pos)@.len(),
    ensures
        final(sim_pos)@.len() == old(sim_pos)@.len(),
        forall|m: ArithModel<S, P>| #[trigger]
            arith.computes(m) ==> final(sim_pos)@ == resolved(
                collision_model(m, thickness, coll_scale),
                inv_mass@,
                rest_pos@,
                old(sim_pos)@,
                arith.k.origin,
            ),
{
    let positive = |w: S| -> (r: bool)
        ensures
            forall|m: ArithModel<S, P>| #[trigger] arith.computes(m) ==> r == (m.lt)(m.k.zero, w),
        { (arith.lt)(arith.k.zero, w) };
    let held = |w: S| -> (r: bool)
        ensures
            forall|m: ArithModel<S, P>| #[trigger] arith.computes(m) ==> r == (m.le)(w, m.k.zero),
        { (arith.le)(w, arith.k.zero) };
    let separate = |e: PairInput<S, P>| -> (r: Option<(P, P)>)
        ensures
            forall|m: ArithModel<S, P>| #[trigger]
                arith.computes(m) ==> r == m.separated(e, thickness, coll_scale),
        { arith.separate(e, thickness, coll_scale) };
    let plus = |x: P, y: P| -> (r: P)
        ensures
            forall|m: ArithModel<S, P>| #[trigger] arith.computes(m) ==> r == (m.v_plus)(x, y),
        { (arith.v_plus)(x, y) };
    let displace = |x: P, c: P| -> (r: P)
        ensures
            forall|m: ArithModel<S, P>| #[trigger] arith.computes(m) ==> r == m.displaced(x, c),
        { arith.displace(x, c) };
    let predict = |x: P, v: P| -> (r: (P, P))
        ensures
            r == (x, v),
        { (x, v) };
    let pull = |x: P| -> (r: P)
        ensures
            r == x,
        { x };
    let solve = |e: EdgeInput<S, P>| -> (r: Option<EdgeOutput<S, P>>)
        ensures
            r is None,
        { None };
    let velocity = |x: P, prev: P| -> (r: P)
        ensures
            r == x,
        { x };
    let ops = CpuOps {
        zero: arith.k.zero,
        origin: arith.k.origin,
        positive,
        held,
        predict,
        pull,
        solve,
        separate,
        plus,
        displace,
        velocity,
    };
    resolve_collisions(sim_pos, inv_mass, rest_pos, &ops);
    proof {
        assert forall|m: ArithModel<S, P>| #[trigger] arith.computes(m) implies ops.computes(
            collision_model(m, thickness, coll_scale),
        ) by {}
    }
}

/// The positions, velocities, positions before and solved positions after a substep or a frame.
pub open spec fn advanced<S, P>(
    c: CpuModel<S, P>,
    p: XpbdCpuTimeStepParams<S, P>,
    t: ConstraintTables<S>,
    zero: S,
    origin: P,
    collide: Option<Seq<P>>,
    steps: int,
    start: (Seq<P>, Seq<P>),
) -> (Seq<P>, Seq<P>, Seq<P>, Seq<P>) {
    match collide {
        None => {
            let before = free_substeps(c, p, t, zero, start, steps - 1);
            let (x, v) = free_substep(c, p, t, zero, before);
            (x, v, before.0, x)
        },
        Some(rest) => {
            let before = colliding_substeps(c, p, t, zero, rest, origin, start, steps - 1);
            let (x, v) = colliding_substep(c, p, t, zero, rest, origin, before);
            (x, v, before.0, integrated(c, p, t, zero, before.0, before.1))
        },
    }
}

/// One substep or a frame of them, with collisions where rest positions are given.
fn advance<
    S: Copy,
    P: Copy,
    Lt: Fn(S, S) -> bool,
    Le: Fn(S, S) -> bool,
    Eq: Fn(S, S) -> bool,
    Plus: Fn(S, S) -> S,
    Minus: Fn(S, S) -> S,
    Times: Fn(S, S) -> S,
    Over: Fn(S, S) -> S,
    Min: Fn(S, S) -> S,
    Max: Fn(S, S) -> S,
    Neg: Fn(S) -> S,
    Sqrt: Fn(S) -> S,
    Exp: Fn(S) -> S,
    VPlus: Fn(P, P) -> P,
    VMinus: Fn(P, P) -> P,
    VTimes: Fn(P, S) -> P,
    VOver: Fn(P, S) -> P,
    VNeg: Fn(P) -> P,
    Dot: Fn(P, P) -> S,
    Height: Fn(P) -> S,
    AtHeight: Fn(P, S) -> P,
    Confine: Fn(P, S) -> P,
    Xyz: Fn([S; 4]) -> P,
    Parts: Fn(P) -> [S; 3],
    Floor: Fn(S) -> i32,
>(
    sim_pos: &mut [P],
    prev_pos: &mut [P],
    vel: &mut [P],
    jac_work: &mut [P],
    inv_mass: &[S],
    constraint_i: &[u32],
    constraint_j: &[u32],
    constraint_rest_len: &[S],
    constraint_compliance: &[S],
    rest_pos: Option<&[P]>,
    thickness: S,
    coll_scale: S,
    whole_frame: bool,
    p: &XpbdCpuTimeStepParams<S, P>,
    arith: &Arith<
        S, P, Lt, Le, Eq, Plus, Minus, Times, Over, Min, Max, Neg, Sqrt, Exp, VPlus, VMinus,
        VTimes, VOver, VNeg, Dot, Height, AtHeight, Confine, Xyz, Parts, Floor,
    >,
)
    requires
        arith.total(),
        rest_pos is Some ==> rest_pos->0@.len() == old(sim_pos)@.len(),
        old(sim_pos)@.len() <= u32::MAX,
        old(prev_pos)@.len() == old(sim_pos)@.len(),
        old(vel)@.len() == old(sim_pos)@.len(),
        old(jac_work)@.len() == old(sim_pos)@.len(),
        tables(
            inv_mass,
            constraint_i,
            constraint_j,
            constraint_rest_len,
            constraint_compliance,
        ).wf(old(sim_pos)@.len() as int),
    ensures
        final(sim_pos)@.len() == old(sim_pos)@.len(),
        final(prev_pos)@.len() == old(prev_pos)@.len(),
        final(vel)@.len() == old(vel)@.len(),
        final(jac_work)@.len() == old(jac_work)@.len(),
        forall|m: ArithModel<S, P>| #[trigger]
            arith.computes(m) ==> (
                final(sim_pos)@,
                final(vel)@,
                final(prev_pos)@,
                final(jac_work)@,
            ) == advanced(
                cpu_model(m, *p, thickness, coll_scale),
                *p,
                tables(
                    inv_mass,
                    constraint_i,
                    constraint_j,
                    constraint_rest_len,
                    constraint_compliance,
                ),
                arith.k.zero,
                arith.k.origin,
                match rest_pos {
                    None => None,
                    Some(r) => Some(r@),
                },
                if whole_frame {
                    SUBSTEPS as int
                } else {
                    1
                },
                (old(sim_pos)@, old(vel)@),
            ),
{
    let positive = |w: S| -> (r: bool)
        ensures
            forall|m: ArithModel<S, P>| #[trigger] arith.computes(m) ==> r == (m.lt)(m.k.zero, w),
        { (arith.lt)(arith.k.zero, w) };
    let held = |w: S| -> (r: bool)
        ensures
            forall|m: ArithModel<S, P>| #[trigger] arith.computes(m) ==> r == (m.le)(w, m.k.zero),
        { (arith.le)(w, arith.k.zero) };
    let separate = |e: PairInput<S, P>| -> (r: Option<(P, P)>)
        ensures
            forall|m: ArithModel<S, P>| #[trigger]
                arith.computes(m) ==> r == m.separated(e, thickness, coll_scale),
        { arith.separate(e, thickness, coll_scale) };
    let plus = |x: P, y: P| -> (r: P)
        ensures
            forall|m: ArithModel<S, P>| #[trigger] arith.computes(m) ==> r == (m.v_plus)(x, y),
        { (arith.v_plus)(x, y) };
    let displace = |x: P, c: P| -> (r: P)
        ensures
            forall|m: ArithModel<S, P>| #[trigger] arith.computes(m) ==> r == m.displaced(x, c),
        { arith.displace(x, c) };
    let predict = |x: P, v: P| -> (r: (P, P))
        ensures
            forall|m: ArithModel<S, P>| #[trigger] arith.computes(m) ==> r == m.fallen(x, v, *p),
        { arith.fall(x, v, p) };
    let pull = |x: P| -> (r: P)
        ensures
            forall|m: ArithModel<S, P>| #[trigger] arith.computes(m) ==> r == m.attracted(x, *p),
        { arith.attract(x, p) };
    let solve = |e: EdgeInput<S, P>| -> (r: Option<EdgeOutput<S, P>>)
        ensures
            forall|m: ArithModel<S, P>| #[trigger] arith.computes(m) ==> r == m.relaxed(e, *p),
        { arith.relax(e, p) };
    let velocity = |x: P, prev: P| -> (r: P)
        ensures
            forall|m: ArithModel<S, P>| #[trigger]
                arith.computes(m) ==> r == m.velocity(
                    x,
                    prev,
                    p.inv_dt,
                    p.linear_drag_per_sec,
                    p.dt,
                ),
        { arith.velocity(x, prev, p.inv_dt, p.linear_drag_per_sec, p.dt) };
    let ops = CpuOps {
        zero: arith.k.zero,
        origin: arith.k.origin,
        positive,
        held,
        predict,
        pull,
        solve,
        separate,
        plus,
        displace,
        velocity,
    };
    proof {
        reveal_with_fuel(free_substeps, 2);
        reveal_with_fuel(colliding_substeps, 2);
        assert forall|m: ArithModel<S, P>| #[trigger] arith.computes(m) implies ops.computes(
            cpu_model(m, *p, thickness, coll_scale),
        ) by {}
    }
    match rest_pos {
        None => {
            if whole_frame {
                frame_without_collisions(
                    sim_pos,
                    prev_pos,
                    vel,
                    jac_work,
                    inv_mass,
                    constraint_i,
                    constraint_j,
                    constraint_rest_len,
                    constraint_compliance,
                    p,
                    &ops,
                );
            } else {
                substep_without_collisions(
                    sim_pos,
                    prev_pos,
                    vel,
                    jac_work,
                    inv_mass,
                    constraint_i,
                    constraint_j,
                    constraint_rest_len,
                    constraint_compliance,
                    p,
                    &ops,
                );
            }
        },
        Some(rest) => {
            if whole_frame {
                frame_with_collisions(
                    sim_pos,
                    prev_pos,
                    vel,
                    jac_work,
                    inv_mass,
                    constraint_i,
                    constraint_j,
                    constraint_rest_len,
                    constraint_compliance,
                    rest,
                    p,
                    &ops,
                );
            } else {
                substep_with_collisions(
                    sim_pos,
                    prev_pos,
                    vel,
                    jac_work,
                    inv_mass,
                    constraint_i,
                    constraint_j,
                    constraint_rest_len,
                    constraint_compliance,
                    rest,
                    p,
                    &ops,
                );
            }
        },
    }
}

/// One substep: predicts, solves the constraints, and updates the velocities.
pub fn xpbd_substep_no_collision<
    S: Copy,
    P: Copy,
    Lt: Fn(S, S) -> bool,
    Le: Fn(S, S) -> bool,
    Eq: Fn(S, S) -> bool,
    Plus: Fn(S, S) -> S,
    Minus: Fn(S, S) -> S,
    Times: Fn(S, S) -> S,
    Over: Fn(S, S) -> S,
    Min: Fn(S, S) -> S,
    Max: Fn(S, S) -> S,
    Neg: Fn(S) -> S,
    Sqrt: Fn(S) -> S,
    Exp: Fn(S) -> S,
    VPlus: Fn(P, P) -> P,
    VMinus: Fn(P, P) -> P,
    VTimes: Fn(P, S) -> P,
    VOver: Fn(P, S) -> P,
    VNeg: Fn(P) -> P,
    Dot: Fn(P, P) -> S,
    Height: Fn(P) -> S,
    AtHeight: Fn(P, S) -> P,
    Confine: Fn(P, S) -> P,
    Xyz: Fn([S; 4]) -> P,
    Parts: Fn(P) -> [S; 3],
    Floor: Fn(S) -> i32,
>(
    sim_pos: &mut [P],
    prev_pos: &mut [P],
    vel: &mut [P],
    jac_work: &mut [P],
    inv_mass: &[S],
    constraint_i: &[u32],
    constraint_j: &[u32],
    constraint_rest_len: &[S],
    constraint_compliance: &[S],
    p: &XpbdCpuTimeStepParams<S, P>,
    arith: &Arith<
        S, P, Lt, Le, Eq, Plus, Minus, Times, Over, Min, Max, Neg, Sqrt, Exp, VPlus, VMinus,
        VTimes, VOver, VNeg, Dot, Height, AtHeight, Confine, Xyz, Parts, Floor,
    >,
)
    requires
        arith.total(),
        old(sim_pos)@.len() <= u32::MAX,
        old(prev_pos)@.len() == old(sim_pos)@.len(),
        old(vel)@.len() == old(sim_pos)@.len(),
        old(jac_work)@.len() == old(sim_pos)@.len(),
        tables(
            inv_mass,
            constraint_i,
            constraint_j,
            constraint_rest_len,
            constraint_compliance,
        ).wf(old(sim_pos)@.len() as int),
    ensures
        final(sim_pos)@.len() == old(sim_pos)@.len(),
        final(prev_pos)@.len() == old(prev_pos)@.len(),
        final(vel)@.len() == old(vel)@.len(),
        final(jac_work)@.len() == old(jac_work)@.len(),
        forall|m: ArithModel<S, P>| #[trigger]
            arith.computes(m) ==> (
                final(sim_pos)@,
                final(vel)@,
                final(prev_pos)@,
                final(jac_work)@,
            ) == advanced(
                cpu_model(m, *p, arith.k.zero, arith.k.zero),
                *p,
                tables(
                    inv_mass,
                    constraint_i,
                    constraint_j,
                    constraint_rest_len,
                    constraint_compliance,
                ),
                arith.k.zero,
                arith.k.origin,
                None,
                1,
                (old(sim_pos)@, old(vel)@),
            ),
{
    advance(
        sim_pos,
        prev_pos,
        vel,
        jac_work,
        inv_mass,
        constraint_i,
        constraint_j,
        constraint_rest_len,
        constraint_compliance,
        None,
        arith.k.zero,
        arith.k.zero,
        false,
        p,
        arith,
    );
}

/// One substep that resolves collisions after the constraints.
pub fn xpbd_substep_with_self_collision<
    S: Copy,
    P: Copy,
    Lt: Fn(S, S) -> bool,
    Le: Fn(S, S) -> bool,
    Eq: Fn(S, S) -> bool,
    Plus: Fn(S, S) -> S,
    Minus: Fn(S, S) -> S,
    Times: Fn(S, S) -> S,
    Over: Fn(S, S) -> S,
    Min: Fn(S, S) -> S,
    Max: Fn(S, S) -> S,
    Neg: Fn(S) -> S,
    Sqrt: Fn(S) -> S,
    Exp: Fn(S) -> S,
    VPlus: Fn(P, P) -> P,
    VMinus: Fn(P, P) -> P,
    VTimes: Fn(P, S) -> P,
    VOver: Fn(P, S) -> P,
    VNeg: Fn(P) -> P,
    Dot: Fn(P, P) -> S,
    Height: Fn(P) -> S,
    AtHeight: Fn(P, S) -> P,
    Confine: Fn(P, S) -> P,
    Xyz: Fn([S; 4]) -> P,
    Parts: Fn(P) -> [S; 3],
    Floor: Fn(S) -> i32,
>(
    sim_pos: &mut [P],
    prev_pos: &mut [P],
    vel: &mut [P],
    jac_work: &mut [P],
    inv_mass: &[S],
    constraint_i: &[u32],
    constraint_j: &[u32],
    constraint_rest_len: &[S],
    constraint_compliance: &[S],
    rest_pos: &[P],
    thickness: S,
    coll_scale: S,
    p: &XpbdCpuTimeStepParams<S, P>,
    arith: &Arith<
        S, P, Lt, Le, Eq, Plus, Minus, Times, Over, Min, Max, Neg, Sqrt, Exp, VPlus, VMinus,
        VTimes, VOver, VNeg, Dot, Height, AtHeight, Confine, Xyz, Parts, Floor,
    >,
)
    requires
        arith.total(),
        rest_pos@.len() == old(sim_pos)@.len(),
        old(sim_pos)@.len() <= u32::MAX,
        old(prev_pos)@.len() == old(sim_pos)@.len(),
        old(vel)@.len() == old(sim_pos)@.len(),
        old(jac_work)@.len() == old(sim_pos)@.len(),
        tables(
            inv_mass,
            constraint_i,
            constraint_j,
            constraint_rest_len,
            constraint_compliance,
        ).wf(old(sim_pos)@.len() as int),
    ensures
        final(sim_pos)@.len() == old(sim_pos)@.len(),
        final(prev_pos)@.len() == old(prev_pos)@.len(),
        final(vel)@.len() == old(vel)@.len(),
        final(jac_work)@.len() == old(jac_work)@.len(),
        forall|m: ArithModel<S, P>| #[trigger]
            arith.computes(m) ==> (
                final(sim_pos)@,
                final(vel)@,
                final(prev_pos)@,
                final(jac_work)@,
            ) == advanced(
                cpu_model(m, *p, thickness, coll_scale),
                *p,
                tables(
                    inv_mass,
                    constraint_i,
                    constraint_j,
                    constraint_rest_len,
                    constraint_compliance,
                ),
                arith.k.zero,
                arith.k.origin,
                Some(rest_pos@),
                1,
                (old(sim_pos)@, old(vel)@),
            ),
{
    advance(
        sim_pos,
        prev_pos,
        vel,
        jac_work,
        inv_mass,
        constraint_i,
        constraint_j,
        constraint_rest_len,
        constraint_compliance,
        Some(rest_pos),
        thickness,
        coll_scale,
        false,
        p,
        arith,
    );
}

/// A frame: all its substeps, without collisions.
pub fn xpbd_frame_no_collision<
    S: Copy,
    P: Copy,
    Lt: Fn(S, S) -> bool,
    Le: Fn(S, S) -> bool,
    Eq: Fn(S, S) -> bool,
    Plus: Fn(S, S) -> S,
    Minus: Fn(S, S) -> S,
    Times: Fn(S, S) -> S,
    Over: Fn(S, S) -> S,
    Min: Fn(S, S) -> S,
    Max: Fn(S, S) -> S,
    Neg: Fn(S) -> S,
    Sqrt: Fn(S) -> S,
    Exp: Fn(S) -> S,
    VPlus: Fn(P, P) -> P,
    VMinus: Fn(P, P) -> P,
    VTimes: Fn(P, S) -> P,
    VOver: Fn(P, S) -> P,
    VNeg: Fn(P) -> P,
    Dot: Fn(P, P) -> S,
    Height: Fn(P) -> S,
    AtHeight: Fn(P, S) -> P,
    Confine: Fn(P, S) -> P,
    Xyz: Fn([S; 4]) -> P,
    Parts: Fn(P) -> [S; 3],
    Floor: Fn(S) -> i32,
>(
    sim_pos: &mut [P],
    prev_pos: &mut [P],
    vel: &mut [P],
    jac_work: &mut [P],
    inv_mass: &[S],
    constraint_i: &[u32],
    constraint_j: &[u32],
    constraint_rest_len: &[S],
    constraint_compliance: &[S],
    substep: &XpbdCpuTimeStepParams<S, P>,
    arith: &Arith<
        S, P, Lt, Le, Eq, Plus, Minus, Times, Over, Min, Max, Neg, Sqrt, Exp, VPlus, VMinus,
        VTimes, VOver, VNeg, Dot, Height, AtHeight, Confine, Xyz, Parts, Floor,
    >,
)
    requires
        arith.total(),
        old(sim_pos)@.len() <= u32::MAX,
        old(prev_pos)@.len() == old(sim_pos)@.len(),
        old(vel)@.len() == old(sim_pos)@.len(),
        old(jac_work)@.len() == old(sim_pos)@.len(),
        tables(
            inv_mass,
            constraint_i,
            constraint_j,
            constraint_rest_len,
            constraint_compliance,
        ).wf(old(sim_pos)@.len() as int),
    ensures
        final(sim_pos)@.len() == old(sim_pos)@.len(),
        final(prev_pos)@.len() == old(prev_pos)@.len(),
        final(vel)@.len() == old(vel)@.len(),
        final(jac_work)@.len() == old(jac_work)@.len(),
        forall|m: ArithModel<S, P>| #[trigger]
            arith.computes(m) ==> (
                final(sim_pos)@,
                final(vel)@,
                final(prev_pos)@,
                final(jac_work)@,
            ) == advanced(
                cpu_model(m, *substep, arith.k.zero, arith.k.zero),
                *substep,
                tables(
                    inv_mass,
                    constraint_i,
                    constraint_j,
                    constraint_rest_len,
                    constraint_compliance,
                ),
                arith.k.zero,
                arith.k.origin,
                None,
                SUBSTEPS as int,
                (old(sim_pos)@, old(vel)@),
            ),
{
    advance(
        sim_pos,
        prev_pos,
        vel,
        jac_work,
        inv_mass,
        constraint_i,
        constraint_j,
        constraint_rest_len,
        constraint_compliance,
        None,
        arith.k.zero,
        arith.k.zero,
        true,
        substep,
        arith,
    );
}

/// A frame: all its substeps, each of which resolves collisions.
pub fn xpbd_frame_with_self_collision<
    S: Copy,
    P: Copy,
    Lt: Fn(S, S) -> bool,
    Le: Fn(S, S) -> bool,
    Eq: Fn(S, S) -> bool,
    Plus: Fn(S, S) -> S,
    Minus: Fn(S, S) -> S,
    Times: Fn(S, S) -> S,
    Over: Fn(S, S) -> S,
    Min: Fn(S, S) -> S,
    Max: Fn(S, S) -> S,
    Neg: Fn(S) -> S,
    Sqrt: Fn(S) -> S,
    Exp: Fn(S) -> S,
    VPlus: Fn(P, P) -> P,
    VMinus: Fn(P, P) -> P,
    VTimes: Fn(P, S) -> P,
    VOver: Fn(P, S) -> P,
    VNeg: Fn(P) -> P,
    Dot: Fn(P, P) -> S,
    Height: Fn(P) -> S,
    AtHeight: Fn(P, S) -> P,
    Confine: Fn(P, S) -> P,
    Xyz: Fn([S; 4]) -> P,
    Parts: Fn(P) -> [S; 3],
    Floor: Fn(S) -> i32,
>(
    sim_pos: &mut [P],
    prev_pos: &mut [P],
    vel: &mut [P],
    jac_work: &mut [P],
    inv_mass: &[S],
    constraint_i: &[u32],
    constraint_j: &[u32],
    constraint_rest_len: &[S],
    constraint_compliance: &[S],
    rest_pos: &[P],
    thickness: S,
    coll_scale: S,
    substep: &XpbdCpuTimeStepParams<S, P>,
    arith: &Arith<
        S, P, Lt, Le, Eq, Plus, Minus, Times, Over, Min, Max, Neg, Sqrt, Exp, VPlus, VMinus,
        VTimes, VOver, VNeg, Dot, Height, AtHeight, Confine, Xyz, Parts, Floor,
    >,
)
    requires
        arith.total(),
        rest_pos@.len() == old(sim_pos)@.len(),
        old(sim_pos)@.len() <= u32::MAX,
        old(prev_pos)@.len() == old(sim_pos)@.len(),
        old(vel)@.len() == old(sim_pos)@.len(),
        old(jac_work)@.len() == old(sim_pos)@.len(),
        tables(
            inv_mass,
            constraint_i,
            constraint_j,
            constraint_rest_len,
            constraint_compliance,
        ).wf(old(sim_pos)@.len() as int),
    ensures
        final(sim_pos)@.len() == old(sim_pos)@.len(),
        final(prev_pos)@.len() == old(prev_pos)@.len(),
        final(vel)@.len() == old(vel)@.len(),
        final(jac_work)@.len() == old(jac_work)@.len(),
        forall|m: ArithModel<S, P>| #[trigger]
            arith.computes(m) ==> (
                final(sim_pos)@,
                final(vel)@,
                final(prev_pos)@,
                final(jac_work)@,
            ) == advanced(
                cpu_model(m, *substep, thickness, coll_scale),
                *substep,
                tables(
                    inv_mass,
                    constraint_i,
                    constraint_j,
                    constraint_rest_len,
                    constraint_compliance,
                ),
                arith.k.zero,
                arith.k.origin,
                Some(rest_pos@),
                SUBSTEPS as int,
                (old(sim_pos)@, old(vel)@),
            ),
{
    advance(
        sim_pos,
        prev_pos,
        vel,
        jac_work,
        inv_mass,
        constraint_i,
        constraint_j,
        constraint_rest_len,
        constraint_compliance,
        Some(rest_pos),
        thickness,
        coll_scale,
        true,
        substep,
        arith,
    );
}

} // verus!
