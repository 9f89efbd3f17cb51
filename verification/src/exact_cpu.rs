//! Substeps without a device, over real numbers.

use vstd::prelude::*;

use crate::arith::ArithModel;
use crate::exact::{
    difference, exact, has_length, law_attracted, law_inertia_above_floor, law_length, law_velocity,
    lemma_unit, multiple, sum, Vector,
};
use crate::exact_contacts::{law_substeps_resolve_alike, Contacts};
use crate::exact_edges::{law_corrections, law_relaxed_edge, within_cap};
use crate::reals::{
    lemma_cancel, lemma_negative, lemma_one, lemma_positive, lemma_quotient, lemma_same_root,
    lemma_spread, lemma_swap,
};
use crate::substep::{
    colliding_substep, colliding_substeps, edge_step, free_substep, free_substeps, iterated,
    predicted, predicted_positions, resolved, sweep, ConstraintTables, CpuModel, EdgeInput,
    XpbdCpuTimeStepParams,
};
use crate::xpbd_cpu::{advanced, collision_model, cpu_model};

verus! {

/// A pinned particle stays. A free one falls, and the grabbed one is then pulled toward its target by
/// the share of the stiffness.
pub proof fn law_cpu_prediction(
    m: ArithModel<real, Vector>,
    p: XpbdCpuTimeStepParams<real, Vector>,
    thickness: real,
    coll_scale: real,
    w: real,
    i: u32,
    x: Vector,
    v: Vector,
)
    requires
        exact(m),
        i <= i32::MAX,
    ensures
        ({
            let (y, u) = predicted(cpu_model(m, p, thickness, coll_scale), p, w, i as int, x, v);
            let (z, s) = m.fallen(x, v, p);
            &&& w <= 0real ==> y == x && u == v
            &&& 0real < w ==> u == s
            &&& 0real < w && !(p.grab_active && p.grab_idx == i) ==> y == z
            &&& 0real < w && p.grab_active && p.grab_idx == i ==> difference(p.grab_target, y)
                == multiple(difference(p.grab_target, z), 1real - p.grab_stiffness)
        }),
{
    law_attracted(m, m.fallen(x, v, p).0, p);
}

proof fn lemma_integrated_len(
    m: ArithModel<real, Vector>,
    p: XpbdCpuTimeStepParams<real, Vector>,
    t: ConstraintTables<real>,
    thickness: real,
    coll_scale: real,
    jac: Seq<Vector>,
    k: int,
)
    requires
        t.wf(jac.len() as int),
    ensures
        iterated(cpu_model(m, p, thickness, coll_scale), t, jac, 0real, k).len() == jac.len(),
    decreases k,
{
    if k > 0 {
        lemma_integrated_len(m, p, t, thickness, coll_scale, jac, k - 1);
        let c = cpu_model(m, p, thickness, coll_scale);
        lemma_sweep_len(c, t, iterated(c, t, jac, 0real, k - 1), t.i.len() as int);
    }
}

proof fn lemma_sweep_len(
    c: CpuModel<real, Vector>,
    t: ConstraintTables<real>,
    jac: Seq<Vector>,
    e: int,
)
    requires
        t.wf(jac.len() as int),
        0 <= e <= t.i.len(),
    ensures
        sweep(c, t, jac, 0real, e).0.len() == jac.len(),
        sweep(c, t, jac, 0real, e).1.len() == t.i.len(),
    decreases e,
{
    if e > 0 {
        lemma_sweep_len(c, t, jac, e - 1);
        assert(t.i[e - 1] < jac.len() && t.j[e - 1] < jac.len());
    }
}

/// The velocity of a free particle after a substep is the one that takes it from where it was to
/// where it is in the time of the substep, times what drag leaves of it.
pub proof fn law_substep_velocity(
    m: ArithModel<real, Vector>,
    p: XpbdCpuTimeStepParams<real, Vector>,
    t: ConstraintTables<real>,
    thickness: real,
    coll_scale: real,
    rest: Seq<Vector>,
    state: (Seq<Vector>, Seq<Vector>),
    i: int,
)
    requires
        exact(m),
        p.inv_dt * p.dt == 1real,
        t.wf(state.0.len() as int),
        state.1.len() == state.0.len(),
        0 <= i < state.0.len(),
        0real < t.inv_mass[i],
    ensures
        ({
            let c = cpu_model(m, p, thickness, coll_scale);
            let damp = (m.exp)(-(p.linear_drag_per_sec * p.dt));
            let (x, v) = free_substep(c, p, t, 0real, state);
            let (y, u) = colliding_substep(c, p, t, 0real, rest, m.k.origin, state);
            &&& x.len() == state.0.len() && v.len() == state.0.len()
            &&& y.len() == state.0.len() && u.len() == state.0.len()
            &&& multiple(v[i], p.dt) == multiple(difference(x[i], state.0[i]), damp)
            &&& multiple(u[i], p.dt) == multiple(difference(y[i], state.0[i]), damp)
        }),
{
    let c = cpu_model(m, p, thickness, coll_scale);
    let seed = predicted_positions(c, p, t.inv_mass, state.0, state.1);
    lemma_integrated_len(m, p, t, thickness, coll_scale, seed, p.inner_iterations as int);
    let (x, v) = free_substep(c, p, t, 0real, state);
    let (y, u) = colliding_substep(c, p, t, 0real, rest, m.k.origin, state);
    law_velocity(m, x[i], state.0[i], p.inv_dt, p.linear_drag_per_sec, p.dt);
    law_velocity(m, y[i], state.0[i], p.inv_dt, p.linear_drag_per_sec, p.dt);
}

/// Without constraints, gravity, grab and drag, a free particle that stays above the floor and below
/// the speed limit keeps its velocity in a substep, and moves by as much as that takes it.
pub proof fn law_free_flight(
    m: ArithModel<real, Vector>,
    p: XpbdCpuTimeStepParams<real, Vector>,
    t: ConstraintTables<real>,
    thickness: real,
    coll_scale: real,
    state: (Seq<Vector>, Seq<Vector>),
    i: int,
    speed: real,
)
    requires
        exact(m),
        p.inv_dt * p.dt == 1real,
        (m.exp)(-(p.linear_drag_per_sec * p.dt)) == 1real,
        p.gravity == (0real, 0real, 0real),
        !p.grab_active,
        t.wf(state.0.len() as int),
        t.i.len() == 0,
        state.1.len() == state.0.len(),
        0 <= i < state.0.len(),
        0real < t.inv_mass[i],
        has_length(state.1[i], speed),
        speed <= m.k.max_speed,
        p.floor_y <= sum(state.0[i], multiple(state.1[i], p.dt)).1,
    ensures
        ({
            let c = cpu_model(m, p, thickness, coll_scale);
            let (x, v) = free_substep(c, p, t, 0real, state);
            &&& x[i] == sum(state.0[i], multiple(state.1[i], p.dt))
            &&& v[i] == state.1[i]
        }),
{
    let c = cpu_model(m, p, thickness, coll_scale);
    let seed = predicted_positions(c, p, t.inv_mass, state.0, state.1);
    law_inertia_above_floor(m, state.0[i], state.1[i], p, speed);
    lemma_no_constraints(c, t, seed, p.inner_iterations as int);
    let (x, v) = free_substep(c, p, t, 0real, state);
    law_substep_velocity(m, p, t, thickness, coll_scale, state.0, state, i);
    let d = difference(x[i], state.0[i]);
    assert(d == multiple(state.1[i], p.dt));
    lemma_one(d.0, 1real);
    lemma_one(d.1, 1real);
    lemma_one(d.2, 1real);
    if p.dt == 0real {
        lemma_swap(p.inv_dt, p.dt);
        lemma_spread(0real, 0real, p.inv_dt);
    }
    lemma_cancel(v[i].0, state.1[i].0, p.dt);
    lemma_cancel(v[i].1, state.1[i].1, p.dt);
    lemma_cancel(v[i].2, state.1[i].2, p.dt);
}

/// Where the edges are as long as at rest in the predicted positions, a substep ends there.
pub proof fn law_substep_from_prediction(
    m: ArithModel<real, Vector>,
    p: XpbdCpuTimeStepParams<real, Vector>,
    t: ConstraintTables<real>,
    thickness: real,
    coll_scale: real,
    state: (Seq<Vector>, Seq<Vector>),
    goal: Seq<Vector>,
)
    requires
        exact(m),
        t.wf(state.0.len() as int),
        goal.len() == state.0.len(),
        forall|i: int|
            0 <= i < goal.len() ==> #[trigger] goal[i] == predicted(
                cpu_model(m, p, thickness, coll_scale),
                p,
                t.inv_mass[i],
                i,
                state.0[i],
                state.1[i],
            ).0,
        forall|f: int| 0 <= f < t.i.len() ==> #[trigger] edge_holds(t, goal, f),
    ensures
        free_substep(cpu_model(m, p, thickness, coll_scale), p, t, 0real, state).0 == goal,
{
    let c = cpu_model(m, p, thickness, coll_scale);
    let seed = predicted_positions(c, p, t.inv_mass, state.0, state.1);
    assert(seed =~= goal);
    law_holding_constraints_rest(
        m,
        p,
        t,
        thickness,
        coll_scale,
        seed,
        p.inner_iterations as int,
    );
}

/// A substep solves the constraints from the predicted positions, as often as there are iterations.
/// An iteration solves one constraint after the other, in the order of the table.
pub proof fn law_substep_solves_prediction(
    m: ArithModel<real, Vector>,
    p: XpbdCpuTimeStepParams<real, Vector>,
    t: ConstraintTables<real>,
    thickness: real,
    coll_scale: real,
    state: (Seq<Vector>, Seq<Vector>),
    goal: Seq<Vector>,
    e: int,
)
    requires
        exact(m),
        goal.len() == state.0.len(),
        forall|i: int|
            0 <= i < goal.len() ==> #[trigger] goal[i] == predicted(
                cpu_model(m, p, thickness, coll_scale),
                p,
                t.inv_mass[i],
                i,
                state.0[i],
                state.1[i],
            ).0,
        0 <= e < t.i.len(),
    ensures
        ({
            let c = cpu_model(m, p, thickness, coll_scale);
            &&& free_substep(c, p, t, 0real, state).0 == iterated(
                c,
                t,
                goal,
                0real,
                p.inner_iterations as int,
            )
            &&& iterated(c, t, goal, 0real, 1) == sweep(c, t, goal, 0real, t.i.len() as int).0
            &&& sweep(c, t, goal, 0real, 0) == (goal, Seq::new(t.i.len(), |k: int| 0real))
            &&& sweep(c, t, goal, 0real, e + 1) == edge_step(
                c,
                t,
                sweep(c, t, goal, 0real, e),
                e,
            )
        }),
{
    let c = cpu_model(m, p, thickness, coll_scale);
    assert(predicted_positions(c, p, t.inv_mass, state.0, state.1) =~= goal);
    assert(iterated(c, t, goal, 0real, 0) == goal);
}

/// A substep with collisions moves the particles apart that collide where a substep without them ends.
pub proof fn law_collisions_come_last(
    m: ArithModel<real, Vector>,
    p: XpbdCpuTimeStepParams<real, Vector>,
    t: ConstraintTables<real>,
    contacts: Contacts,
    state: (Seq<Vector>, Seq<Vector>),
)
    requires
        exact(m),
        t.wf(state.0.len() as int),
        contacts.wf(),
        contacts.inv_mass == t.inv_mass,
        contacts.sim == free_substep(
            cpu_model(m, p, contacts.thickness, contacts.coll_scale),
            p,
            t,
            0real,
            state,
        ).0,
    ensures
        colliding_substep(
            cpu_model(m, p, contacts.thickness, contacts.coll_scale),
            p,
            t,
            0real,
            contacts.rest,
            m.k.origin,
            state,
        ).0 == resolved(
            collision_model(m, contacts.thickness, contacts.coll_scale),
            contacts.inv_mass,
            contacts.rest,
            contacts.sim,
            m.k.origin,
        ),
{
    law_substeps_resolve_alike(contacts, m, p);
}

proof fn lemma_no_constraints(
    c: CpuModel<real, Vector>,
    t: ConstraintTables<real>,
    jac: Seq<Vector>,
    k: int,
)
    requires
        t.i.len() == 0,
    ensures
        iterated(c, t, jac, 0real, k) == jac,
    decreases k,
{
    if k > 0 {
        lemma_no_constraints(c, t, jac, k - 1);
    }
}

/// What constraint `e` is solved from.
pub open spec fn edge_of(
    t: ConstraintTables<real>,
    jac: Seq<Vector>,
    lambda: Seq<real>,
    e: int,
) -> EdgeInput<real, Vector> {
    EdgeInput {
        w_i: t.inv_mass[t.i[e] as int],
        w_j: t.inv_mass[t.j[e] as int],
        rest: t.rest_len[e],
        compliance: t.compliance[e],
        p_i: jac[t.i[e] as int],
        p_j: jac[t.j[e] as int],
        lambda: lambda[e],
    }
}

/// The table has constraint `e`, between two particles, one of which can move.
pub open spec fn is_edge(t: ConstraintTables<real>, n: int, e: int) -> bool {
    &&& t.wf(n)
    &&& 0 <= e < t.i.len()
    &&& t.i[e] != t.j[e]
    &&& 0real <= t.inv_mass[t.i[e] as int]
    &&& 0real <= t.inv_mass[t.j[e] as int]
    &&& 0real <= t.compliance[e]
}

/// To solve a constraint changes no particle but its two ends, and no multiplier but its own. Without
/// compliance and with `omega` one the ends are then as far apart as the edge is long at rest, as long
/// as no correction is over the cap; `dlam` is the change of the multiplier.
pub proof fn law_edge_step(
    m: ArithModel<real, Vector>,
    p: XpbdCpuTimeStepParams<real, Vector>,
    t: ConstraintTables<real>,
    thickness: real,
    coll_scale: real,
    state: (Seq<Vector>, Seq<real>),
    e: int,
    len: real,
    dlam: real,
)
    requires
        exact(m),
        0real < p.dt,
        is_edge(t, state.0.len() as int, e),
        state.1.len() == t.i.len(),
        m.k.tiny <= t.inv_mass[t.i[e] as int] + t.inv_mass[t.j[e] as int],
        has_length(difference(state.0[t.i[e] as int], state.0[t.j[e] as int]), len),
        m.k.tiny <= len,
        edge_step(cpu_model(m, p, thickness, coll_scale), t, state, e).1[e] == state.1[e] + dlam,
    ensures
        ({
            let (jac, lambda) = edge_step(cpu_model(m, p, thickness, coll_scale), t, state, e);
            let (i, j) = (t.i[e] as int, t.j[e] as int);
            let (w_i, w_j) = (t.inv_mass[i], t.inv_mass[j]);
            &&& jac.len() == state.0.len() && lambda.len() == state.1.len()
            &&& forall|q: int| 0 <= q < jac.len() && q != i && q != j ==> #[trigger] jac[q]
                == state.0[q]
            &&& forall|f: int| 0 <= f < lambda.len() && f != e ==> #[trigger] lambda[f]
                == state.1[f]
            &&& w_i == 0real ==> jac[i] == state.0[i]
            &&& w_j == 0real ==> jac[j] == state.0[j]
            &&& m.relaxed(edge_of(t, state.0, state.1, e), p) matches Some(s) && jac[i] == s.p_i
                && jac[j] == s.p_j
            &&& t.compliance[e] == 0real ==> len + (w_i + w_j) * dlam == t.rest_len[e]
            &&& within_cap(m, p.jacobi_omega, w_i, dlam) && within_cap(
                m,
                p.jacobi_omega,
                w_j,
                dlam,
            ) ==> {
                &&& multiple(difference(jac[i], jac[j]), len) == multiple(
                    difference(state.0[i], state.0[j]),
                    len + p.jacobi_omega * ((w_i + w_j) * dlam),
                )
                &&& sum(
                    multiple(difference(jac[i], state.0[i]), w_j),
                    multiple(difference(jac[j], state.0[j]), w_i),
                ) == (0real, 0real, 0real)
                &&& p.jacobi_omega == 1real && t.compliance[e] == 0real && 0real <= t.rest_len[e]
                    ==> has_length(difference(jac[i], jac[j]), t.rest_len[e])
            }
        }),
{
    let c = cpu_model(m, p, thickness, coll_scale);
    let (i, j) = (t.i[e] as int, t.j[e] as int);
    let (w_i, w_j) = (t.inv_mass[i], t.inv_mass[j]);
    let input = edge_of(t, state.0, state.1, e);
    assert(t.i[e] < state.0.len() && t.j[e] < state.0.len());
    lemma_positive(p.dt, p.dt);
    let softness = t.compliance[e] / (p.dt * p.dt);
    lemma_quotient(t.compliance[e], p.dt * p.dt);
    if softness < 0real {
        lemma_negative(softness, p.dt * p.dt);
        lemma_positive(-softness, p.dt * p.dt);
    }
    law_length(m, difference(input.p_i, input.p_j));
    lemma_same_root(len, m.length(difference(input.p_i, input.p_j)));
    assert(m.relaxed(input, p) is Some);
    let s = m.relaxed(input, p).unwrap();
    assert((c.solve)(input) == m.relaxed(input, p));
    assert(edge_step(c, t, state, e).1 == state.1.update(e, s.lambda));
    law_relaxed_edge(m, input, p, softness, dlam, len);
    if t.compliance[e] == 0real {
        lemma_spread(0real, 0real, p.dt * p.dt);
        lemma_cancel(softness, 0real, p.dt * p.dt);
        lemma_spread(0real, 0real, s.lambda);
    }
    lemma_pinned_end(m, input, p, s.p_i, s.p_j, len);
    let (jac, lambda) = edge_step(c, t, state, e);
    assert(jac[i] == s.p_i);
    assert(jac[j] == s.p_j);
}

/// A constraint whose ends coincide, or neither of which can move, changes nothing.
pub proof fn law_idle_edge_step(
    m: ArithModel<real, Vector>,
    p: XpbdCpuTimeStepParams<real, Vector>,
    t: ConstraintTables<real>,
    thickness: real,
    coll_scale: real,
    state: (Seq<Vector>, Seq<real>),
    e: int,
    len: real,
)
    requires
        exact(m),
        has_length(difference(state.0[t.i[e] as int], state.0[t.j[e] as int]), len),
        len < m.k.tiny || t.inv_mass[t.i[e] as int] <= 0real && t.inv_mass[t.j[e] as int] <= 0real,
    ensures
        edge_step(cpu_model(m, p, thickness, coll_scale), t, state, e) == state,
{
    let input = edge_of(t, state.0, state.1, e);
    law_length(m, difference(input.p_i, input.p_j));
    lemma_same_root(len, m.length(difference(input.p_i, input.p_j)));
    assert((cpu_model(m, p, thickness, coll_scale).solve)(input) == m.relaxed(input, p));
}

/// What a frame of substeps leaves belongs together: the velocities are those from the positions
/// before the last substep to the positions after it, and the positions are the solved ones, moved
/// apart where collisions are resolved.
pub proof fn law_frame_results(
    m: ArithModel<real, Vector>,
    p: XpbdCpuTimeStepParams<real, Vector>,
    t: ConstraintTables<real>,
    thickness: real,
    coll_scale: real,
    collide: Option<Seq<Vector>>,
    n: int,
    start: (Seq<Vector>, Seq<Vector>),
    i: int,
)
    requires
        exact(m),
        p.inv_dt * p.dt == 1real,
        1 <= n,
        t.wf(start.0.len() as int),
        start.1.len() == start.0.len(),
        0 <= i < start.0.len(),
        0real < t.inv_mass[i],
    ensures
        ({
            let c = cpu_model(m, p, thickness, coll_scale);
            let (x, v, prev, solved) = advanced(c, p, t, 0real, m.k.origin, collide, n, start);
            let damp = (m.exp)(-(p.linear_drag_per_sec * p.dt));
            &&& x.len() == start.0.len() && v.len() == start.0.len()
            &&& prev.len() == start.0.len() && solved.len() == start.0.len()
            &&& multiple(v[i], p.dt) == multiple(difference(x[i], prev[i]), damp)
            &&& n == 1 ==> prev == start.0
            &&& 1 < n ==> prev == advanced(c, p, t, 0real, m.k.origin, collide, n - 1, start).0
            &&& collide is None ==> solved == x
            &&& collide matches Some(rest) ==> x == resolved(
                c,
                t.inv_mass,
                rest,
                solved,
                m.k.origin,
            )
        }),
{
    let c = cpu_model(m, p, thickness, coll_scale);
    let o = m.k.origin;
    match collide {
        None => {
            lemma_free_len(m, p, t, thickness, coll_scale, start, n - 1);
            let before = free_substeps(c, p, t, 0real, start, n - 1);
            law_substep_velocity(m, p, t, thickness, coll_scale, start.0, before, i);
        },
        Some(rest) => {
            lemma_colliding_len(m, p, t, thickness, coll_scale, rest, start, n - 1);
            let before = colliding_substeps(c, p, t, 0real, rest, o, start, n - 1);
            law_substep_velocity(m, p, t, thickness, coll_scale, rest, before, i);
            let seed = predicted_positions(c, p, t.inv_mass, before.0, before.1);
            lemma_integrated_len(m, p, t, thickness, coll_scale, seed, p.inner_iterations as int);
        },
    }
}

proof fn lemma_free_len(
    m: ArithModel<real, Vector>,
    p: XpbdCpuTimeStepParams<real, Vector>,
    t: ConstraintTables<real>,
    thickness: real,
    coll_scale: real,
    start: (Seq<Vector>, Seq<Vector>),
    k: int,
)
    requires
        t.wf(start.0.len() as int),
        start.1.len() == start.0.len(),
    ensures
        ({
            let c = cpu_model(m, p, thickness, coll_scale);
            let (x, v) = free_substeps(c, p, t, 0real, start, k);
            x.len() == start.0.len() && v.len() == start.0.len()
        }),
    decreases k,
{
    if k > 0 {
        lemma_free_len(m, p, t, thickness, coll_scale, start, k - 1);
        let c = cpu_model(m, p, thickness, coll_scale);
        let (x, v) = free_substeps(c, p, t, 0real, start, k - 1);
        let seed = predicted_positions(c, p, t.inv_mass, x, v);
        lemma_integrated_len(m, p, t, thickness, coll_scale, seed, p.inner_iterations as int);
    }
}

proof fn lemma_colliding_len(
    m: ArithModel<real, Vector>,
    p: XpbdCpuTimeStepParams<real, Vector>,
    t: ConstraintTables<real>,
    thickness: real,
    coll_scale: real,
    rest: Seq<Vector>,
    start: (Seq<Vector>, Seq<Vector>),
    k: int,
)
    requires
        t.wf(start.0.len() as int),
        start.1.len() == start.0.len(),
    ensures
        ({
            let c = cpu_model(m, p, thickness, coll_scale);
            let (x, v) = colliding_substeps(c, p, t, 0real, rest, m.k.origin, start, k);
            x.len() == start.0.len() && v.len() == start.0.len()
        }),
    decreases k,
{
    if k > 0 {
        lemma_colliding_len(m, p, t, thickness, coll_scale, rest, start, k - 1);
        let c = cpu_model(m, p, thickness, coll_scale);
        let (x, v) = colliding_substeps(c, p, t, 0real, rest, m.k.origin, start, k - 1);
        let seed = predicted_positions(c, p, t.inv_mass, x, v);
        lemma_integrated_len(m, p, t, thickness, coll_scale, seed, p.inner_iterations as int);
    }
}

/// An end of inverse mass zero is not corrected.
proof fn lemma_pinned_end(
    m: ArithModel<real, Vector>,
    e: EdgeInput<real, Vector>,
    p: XpbdCpuTimeStepParams<real, Vector>,
    p_i: Vector,
    p_j: Vector,
    len: real,
)
    requires
        exact(m),
        has_length(difference(e.p_i, e.p_j), len),
        m.k.tiny <= len,
        m.relaxed(e, p) matches Some(s) && s.p_i == p_i && s.p_j == p_j,
    ensures
        e.w_i == 0real ==> p_i == e.p_i,
        e.w_j == 0real ==> p_j == e.p_j,
{
    let d = difference(e.p_i, e.p_j);
    law_length(m, d);
    lemma_same_root(len, m.length(d));
    lemma_unit(d, len);
    let g = (d.0 / len, d.1 / len, d.2 / len);
    let softness = e.compliance / (p.dt * p.dt);
    let dlam = (-(len - e.rest) - softness * e.lambda) / (e.w_i + e.w_j + softness);
    law_corrections(m, g, p.jacobi_omega, e.w_i, e.w_j, dlam);
    lemma_spread(0real, 0real, p.jacobi_omega);
    lemma_spread(0real, 0real, dlam);
    lemma_spread(0real, 0real, g.0);
    lemma_spread(0real, 0real, g.1);
    lemma_spread(0real, 0real, g.2);
}

/// A constraint that is solved last holds when the sweep is over: the ends are as far apart as the
/// edge is long at rest, without compliance, with `omega` one and no correction over the cap.
pub proof fn law_last_constraint_holds(
    m: ArithModel<real, Vector>,
    p: XpbdCpuTimeStepParams<real, Vector>,
    t: ConstraintTables<real>,
    thickness: real,
    coll_scale: real,
    jac: Seq<Vector>,
    e: int,
    len: real,
    dlam: real,
)
    requires
        exact(m),
        0real < p.dt,
        p.jacobi_omega == 1real,
        e == t.i.len() - 1,
        is_edge(t, jac.len() as int, e),
        t.compliance[e] == 0real,
        0real <= t.rest_len[e],
        m.k.tiny <= t.inv_mass[t.i[e] as int] + t.inv_mass[t.j[e] as int],
        ({
            let before = sweep(cpu_model(m, p, thickness, coll_scale), t, jac, 0real, e).0;
            has_length(difference(before[t.i[e] as int], before[t.j[e] as int]), len)
        }),
        m.k.tiny <= len,
        len + (t.inv_mass[t.i[e] as int] + t.inv_mass[t.j[e] as int]) * dlam == t.rest_len[e],
        within_cap(m, 1real, t.inv_mass[t.i[e] as int], dlam),
        within_cap(m, 1real, t.inv_mass[t.j[e] as int], dlam),
    ensures
        ({
            let after = sweep(cpu_model(m, p, thickness, coll_scale), t, jac, 0real, e + 1).0;
            has_length(difference(after[t.i[e] as int], after[t.j[e] as int]), t.rest_len[e])
        }),
{
    let c = cpu_model(m, p, thickness, coll_scale);
    lemma_sweep_len(c, t, jac, e);
    let before = sweep(c, t, jac, 0real, e);
    let change = edge_step(c, t, before, e).1[e] - before.1[e];
    law_edge_step(m, p, t, thickness, coll_scale, before, e, len, change);
    let weights = t.inv_mass[t.i[e] as int] + t.inv_mass[t.j[e] as int];
    lemma_swap(weights, change);
    lemma_swap(weights, dlam);
    lemma_cancel(change, dlam, weights);
}

/// Constraint `e` holds in the positions.
pub open spec fn edge_holds(t: ConstraintTables<real>, jac: Seq<Vector>, e: int) -> bool {
    has_length(difference(jac[t.i[e] as int], jac[t.j[e] as int]), t.rest_len[e])
}

proof fn lemma_holding_edge(
    m: ArithModel<real, Vector>,
    p: XpbdCpuTimeStepParams<real, Vector>,
    t: ConstraintTables<real>,
    thickness: real,
    coll_scale: real,
    state: (Seq<Vector>, Seq<real>),
    e: int,
)
    requires
        exact(m),
        0 <= e < t.i.len(),
        t.wf(state.0.len() as int),
        state.1.len() == t.i.len(),
        edge_holds(t, state.0, e),
        state.1[e] == 0real,
    ensures
        edge_step(cpu_model(m, p, thickness, coll_scale), t, state, e) == state,
{
    let c = cpu_model(m, p, thickness, coll_scale);
    let input = edge_of(t, state.0, state.1, e);
    let d = difference(input.p_i, input.p_j);
    let len = t.rest_len[e];
    assert(t.i[e] < state.0.len() && t.j[e] < state.0.len());
    law_length(m, d);
    lemma_same_root(len, m.length(d));
    assert((c.solve)(input) == m.relaxed(input, p));
    let softness = input.compliance / (p.dt * p.dt);
    let weights = input.w_i + input.w_j + softness;
    if m.k.tiny <= len && m.k.tiny <= weights {
        lemma_spread(0real, 0real, softness);
        lemma_swap(softness, 0real);
        let dlam = (-(len - input.rest) - softness * input.lambda) / weights;
        lemma_quotient(-(len - input.rest) - softness * input.lambda, weights);
        lemma_spread(0real, 0real, weights);
        lemma_cancel(dlam, 0real, weights);
        lemma_unit(d, len);
        let g = (d.0 / len, d.1 / len, d.2 / len);
        law_corrections(m, g, p.jacobi_omega, input.w_i, input.w_j, dlam);
        let a = p.jacobi_omega * input.w_i;
        let b = p.jacobi_omega * input.w_j;
        lemma_spread(0real, 0real, a);
        lemma_spread(0real, 0real, b);
        lemma_spread(0real, 0real, g.0);
        lemma_spread(0real, 0real, g.1);
        lemma_spread(0real, 0real, g.2);
        let s = m.relaxed(input, p).unwrap();
        assert(s.p_i == input.p_i);
        assert(s.p_j == input.p_j);
        assert(s.lambda == 0real);
    }
    let after = edge_step(c, t, state, e);
    assert(after.0 =~= state.0);
    assert(after.1 =~= state.1);
}

proof fn lemma_holding_sweep(
    m: ArithModel<real, Vector>,
    p: XpbdCpuTimeStepParams<real, Vector>,
    t: ConstraintTables<real>,
    thickness: real,
    coll_scale: real,
    jac: Seq<Vector>,
    e: int,
)
    requires
        exact(m),
        0 <= e <= t.i.len(),
        t.wf(jac.len() as int),
        forall|f: int| 0 <= f < t.i.len() ==> #[trigger] edge_holds(t, jac, f),
    ensures
        sweep(cpu_model(m, p, thickness, coll_scale), t, jac, 0real, e) == (
            jac,
            Seq::new(t.i.len(), |k: int| 0real),
        ),
    decreases e,
{
    if e > 0 {
        lemma_holding_sweep(m, p, t, thickness, coll_scale, jac, e - 1);
        let c = cpu_model(m, p, thickness, coll_scale);
        let before = sweep(c, t, jac, 0real, e - 1);
        assert(edge_holds(t, jac, e - 1));
        lemma_holding_edge(m, p, t, thickness, coll_scale, before, e - 1);
    }
}

/// Where every edge is as long as it is at rest, the constraints move nothing, in any number of
/// iterations.
pub proof fn law_holding_constraints_rest(
    m: ArithModel<real, Vector>,
    p: XpbdCpuTimeStepParams<real, Vector>,
    t: ConstraintTables<real>,
    thickness: real,
    coll_scale: real,
    jac: Seq<Vector>,
    k: int,
)
    requires
        exact(m),
        t.wf(jac.len() as int),
        forall|f: int| 0 <= f < t.i.len() ==> #[trigger] edge_holds(t, jac, f),
    ensures
        iterated(cpu_model(m, p, thickness, coll_scale), t, jac, 0real, k) == jac,
    decreases k,
{
    if k > 0 {
        law_holding_constraints_rest(m, p, t, thickness, coll_scale, jac, k - 1);
        lemma_holding_sweep(m, p, t, thickness, coll_scale, jac, t.i.len() as int);
    }
}

} // verus!
