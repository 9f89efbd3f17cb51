//! The kernels over real numbers.

use vstd::prelude::*;

use crate::arith::ArithModel;
use crate::atom::wrapping_sum_i32;
use crate::exact::{
    difference, exact, exact_parts, has_length, law_accelerated, law_displaced, law_fallen,
    law_length, law_velocity, lemma_unit, limited, multiple, sum, Vector,
};
use crate::exact_cpu::{edge_of, is_edge};
use crate::exact_edges::{law_corrections, law_solved_edge, within_cap};
use crate::gs::{
    add3_if, add_to_corners, face_normal, kernel_displaced, kernel_edge_input, kernel_edge_step,
    kernel_prediction, kernel_velocity, pair_effect, pair_input, pairs_effect,
};
use crate::reals::{
    lemma_cancel, lemma_negative, lemma_one, lemma_positive, lemma_quotient, lemma_same_root,
    lemma_shift, lemma_spread, lemma_swap,
};
use crate::substep::{edge_step, ConstraintTables, EdgeInput, PairInput, XpbdCpuTimeStepParams};
use crate::types::SimParams;
use crate::xpbd_cpu::cpu_model;

verus! {

/// The kernel leaves a pinned particle where it is. It pulls the grabbed one toward its target, with
/// its velocity kept, and lets the others go on along the velocity that gravity gives them.
pub proof fn law_kernel_prediction(
    m: ArithModel<real, Vector>,
    params: SimParams<real>,
    i: u32,
    x: Vector,
    v: Vector,
    w: real,
)
    requires
        exact(m),
        exact_parts(m),
        i <= i32::MAX,
    ensures
        ({
            let (y, u) = kernel_prediction(m, params, i, x, v, w);
            let is_held = params.grab_active != 0 && params.grab_idx == i;
            let g = (params.gravity[0], params.gravity[1], params.gravity[2]);
            let target = (params.grab_target[0], params.grab_target[1], params.grab_target[2]);
            &&& w <= 0real ==> y == x && u == v
            &&& 0real < w && is_held ==> y == m.pulled(x, target, params.grab_stiffness) && u == v
            &&& 0real < w && !is_held ==> u == m.accelerated(v, g, params.dt) && y == sum(
                x,
                multiple(u, params.dt),
            )
        }),
{
}

/// The inverse mass that constraints see: none for the grabbed particle, which they do not move.
pub open spec fn constrained_mass(
    params: SimParams<real>,
    t: ConstraintTables<real>,
    i: u32,
) -> real {
    if params.grab_active != 0 && params.grab_idx == i {
        0real
    } else {
        t.inv_mass[i as int]
    }
}

/// To solve a constraint changes no particle but its two ends, and no multiplier but its own. The
/// grabbed particle and pinned ones stay. Within the cap, the distance of the ends changes by `omega`
/// times what solves the constraint, along the line between them: without compliance and with `omega`
/// one, they end as far apart as the edge is long at rest, or its least length where it was
/// compressed too far.
pub proof fn law_kernel_edge_step(
    m: ArithModel<real, Vector>,
    params: SimParams<real>,
    t: ConstraintTables<real>,
    state: (Seq<Vector>, Seq<real>, Seq<real>),
    e: int,
    len: real,
)
    requires
        exact(m),
        0 <= e < t.i.len(),
        t.wf(state.0.len() as int),
        state.0.len() <= i32::MAX,
        state.1.len() == t.i.len(),
        state.2.len() == t.i.len(),
        t.i[e] != t.j[e],
        0real <= constrained_mass(params, t, t.i[e]),
        0real <= constrained_mass(params, t, t.j[e]),
        m.k.tiny <= constrained_mass(params, t, t.i[e]) + constrained_mass(params, t, t.j[e]),
        0real <= t.compliance[e] * params.inv_dt_sq,
        has_length(difference(state.0[t.i[e] as int], state.0[t.j[e] as int]), len),
        m.k.tiny <= len,
    ensures
        ({
            let (jac, lambda, delta) = kernel_edge_step(m, params, t, state, e);
            let (i, j) = (t.i[e] as int, t.j[e] as int);
            let w_i = constrained_mass(params, t, t.i[e]);
            let w_j = constrained_mass(params, t, t.j[e]);
            let soft = t.compliance[e] * params.inv_dt_sq;
            let least = t.rest_len[e] * m.k.compress_min;
            let change = (w_i + w_j) * delta[e];
            &&& jac.len() == state.0.len()
            &&& lambda.len() == state.1.len() && delta.len() == state.2.len()
            &&& forall|q: int| 0 <= q < jac.len() && q != i && q != j ==> #[trigger] jac[q]
                == state.0[q]
            &&& forall|f: int| 0 <= f < lambda.len() && f != e ==> #[trigger] lambda[f]
                == state.1[f]
            &&& forall|f: int| 0 <= f < delta.len() && f != e ==> #[trigger] delta[f] == state.2[f]
            &&& w_i == 0real ==> jac[i] == state.0[i]
            &&& w_j == 0real ==> jac[j] == state.0[j]
            &&& multiple(difference(jac[i], state.0[i]), len) == multiple(
                difference(state.0[i], state.0[j]),
                limited((params.jacobi_omega * w_i) * delta[e], m.k.correction_cap),
            )
            &&& multiple(difference(jac[j], state.0[j]), len) == multiple(
                difference(state.0[i], state.0[j]),
                -limited((params.jacobi_omega * w_j) * delta[e], m.k.correction_cap),
            )
            &&& lambda[e] == state.1[e] + delta[e]
            &&& len < least ==> len + change == least
            &&& least <= len ==> (len + change) + soft * lambda[e] == t.rest_len[e]
            &&& within_cap(m, params.jacobi_omega, w_i, delta[e]) && within_cap(
                m,
                params.jacobi_omega,
                w_j,
                delta[e],
            ) ==> {
                &&& multiple(difference(jac[i], jac[j]), len) == multiple(
                    difference(state.0[i], state.0[j]),
                    len + params.jacobi_omega * change,
                )
                &&& sum(
                    multiple(difference(jac[i], state.0[i]), w_j),
                    multiple(difference(jac[j], state.0[j]), w_i),
                ) == (0real, 0real, 0real)
            }
        }),
{
    assert(t.i[e] < state.0.len() && t.j[e] < state.0.len());
    let (i, j) = (t.i[e] as int, t.j[e] as int);
    let omega = params.jacobi_omega;
    let input = kernel_edge_input(params, t, 0real, state.0, state.1, e);
    assert(input.w_i == constrained_mass(params, t, t.i[e]));
    assert(input.w_j == constrained_mass(params, t, t.j[e]));
    law_solved_edge(m, input, params.inv_dt_sq, omega, len);
    let (jac, lambda, delta) = kernel_edge_step(m, params, t, state, e);
    match m.solved(input, params.inv_dt_sq, omega) {
        None => {
            let weights = input.w_i + input.w_j;
            lemma_spread(0real, 0real, weights);
            lemma_swap(weights, 0real);
            lemma_spread(0real, 0real, omega);
            let d = difference(state.0[i], state.0[j]);
            let none = difference(state.0[i], state.0[i]);
            lemma_spread(0real, 0real, input.w_i);
            lemma_spread(0real, 0real, input.w_j);
            lemma_spread(0real, 0real, soft_of(t, params, e));
            lemma_spread(0real, 0real, len);
            lemma_spread(0real, 0real, d.0);
            lemma_spread(0real, 0real, d.1);
            lemma_spread(0real, 0real, d.2);
            lemma_spread(0real, 0real, omega * input.w_i);
            lemma_spread(0real, 0real, omega * input.w_j);
        },
        Some(s) => {
            lemma_unmoved(m, input, params.inv_dt_sq, omega, s.p_i, s.p_j, s.dlam, len);
            assert(jac[i] == s.p_i);
            assert(jac[j] == s.p_j);
        },
    }
}

/// Where a constraint is not solved, its kernel moves nothing, keeps the multiplier and notes that it
/// did not change.
pub proof fn law_kernel_idle_edge(
    m: ArithModel<real, Vector>,
    params: SimParams<real>,
    t: ConstraintTables<real>,
    state: (Seq<Vector>, Seq<real>, Seq<real>),
    e: int,
    len: real,
)
    requires
        exact(m),
        0 <= e < t.i.len(),
        t.wf(state.0.len() as int),
        state.0.len() <= i32::MAX,
        state.2.len() == t.i.len(),
        has_length(difference(state.0[t.i[e] as int], state.0[t.j[e] as int]), len),
        ({
            let w_i = constrained_mass(params, t, t.i[e]);
            let w_j = constrained_mass(params, t, t.j[e]);
            len < m.k.tiny || w_i <= 0real && w_j <= 0real
        }),
    ensures
        kernel_edge_step(m, params, t, state, e) == (state.0, state.1, state.2.update(e, 0real)),
{
    assert(t.i[e] < state.0.len() && t.j[e] < state.0.len());
    let input = kernel_edge_input(params, t, 0real, state.0, state.1, e);
    assert(input.w_i == constrained_mass(params, t, t.i[e]));
    assert(input.w_j == constrained_mass(params, t, t.j[e]));
    law_length(m, difference(input.p_i, input.p_j));
    lemma_same_root(len, m.length(difference(input.p_i, input.p_j)));
}

spec fn soft_of(t: ConstraintTables<real>, params: SimParams<real>, e: int) -> real {
    t.compliance[e] * params.inv_dt_sq
}

/// An end of inverse mass zero is not corrected.
proof fn lemma_unmoved(
    m: ArithModel<real, Vector>,
    e: EdgeInput<real, Vector>,
    inv_dt_sq: real,
    omega: real,
    p_i: Vector,
    p_j: Vector,
    dlam: real,
    len: real,
)
    requires
        exact(m),
        has_length(difference(e.p_i, e.p_j), len),
        m.k.tiny <= len,
        m.solved(e, inv_dt_sq, omega) matches Some(s) && s.p_i == p_i && s.p_j == p_j && s.dlam
            == dlam,
    ensures
        e.w_i == 0real ==> p_i == e.p_i,
        e.w_j == 0real ==> p_j == e.p_j,
{
    let d = difference(e.p_i, e.p_j);
    law_length(m, d);
    lemma_same_root(len, m.length(d));
    lemma_unit(d, len);
    let g = (d.0 / len, d.1 / len, d.2 / len);
    law_corrections(m, g, omega, e.w_i, e.w_j, dlam);
    lemma_spread(0real, 0real, omega);
    lemma_spread(0real, 0real, dlam);
    lemma_spread(0real, 0real, g.0);
    lemma_spread(0real, 0real, g.1);
    lemma_spread(0real, 0real, g.2);
}

/// Of a pair in contact each particle that can move takes its own displacement in fixed point, in its
/// own three cells. All other cells keep what they hold, and so do all of them without contact.
pub proof fn law_pair_effect(
    m: ArithModel<real, Vector>,
    fix: spec_fn(Vector) -> [i32; 3],
    params: SimParams<real>,
    sim: Seq<Vector>,
    rest: Seq<Vector>,
    inv_mass: Seq<real>,
    acc: Seq<i32>,
    i: int,
    j: int,
)
    requires
        exact(m),
        0 <= i < j <= i32::MAX,
        3 * j + 2 < acc.len(),
        params.grab_active == 0,
    ensures
        ({
            let after = pair_effect(m, fix, params, sim, rest, inv_mass, acc, i, j);
            let e = PairInput {
                p_i: sim[i],
                p_j: sim[j],
                rest_i: rest[i],
                rest_j: rest[j],
                w_i: inv_mass[i],
                w_j: inv_mass[j],
            };
            let parted = m.separated(e, params.thickness, params.coll_scale);
            &&& after.len() == acc.len()
            &&& parted is None ==> after == acc
            &&& forall|c: int| 0 <= c < acc.len() && c / 3 != i && c / 3 != j ==> #[trigger] after[c]
                == acc[c]
            &&& forall|a: int|
                0 <= a < 3 && parted is Some ==> #[trigger] after[3 * i + a] == if 0real
                    < inv_mass[i] {
                    wrapping_sum_i32(acc[3 * i + a], fix(parted.unwrap().0)[a])
                } else {
                    acc[3 * i + a] as int
                }
            &&& forall|a: int|
                0 <= a < 3 && parted is Some ==> #[trigger] after[3 * j + a] == if 0real
                    < inv_mass[j] {
                    wrapping_sum_i32(acc[3 * j + a], fix(parted.unwrap().1)[a])
                } else {
                    acc[3 * j + a] as int
                }
        }),
{
    let after = pair_effect(m, fix, params, sim, rest, inv_mass, acc, i, j);
    let e = pair_input(params, sim, rest, inv_mass, m.k.zero, i, j);
    assert(e.w_i == inv_mass[i] && e.w_j == inv_mass[j]);
    if let Some((d_i, d_j)) = m.separated(e, params.thickness, params.coll_scale) {
        let first = add3_if(0real < e.w_i, acc, i, fix(d_i));
        assert(after == add3_if(0real < e.w_j, first, j, fix(d_j)));
        assert(fix(d_i)@[0] == fix(d_i)[0] && fix(d_i)@[1] == fix(d_i)[1] && fix(d_i)@[2] == fix(
            d_i,
        )[2]);
        assert(fix(d_j)@[0] == fix(d_j)[0] && fix(d_j)@[1] == fix(d_j)[1] && fix(d_j)@[2] == fix(
            d_j,
        )[2]);
        assert forall|a: int| 0 <= a < 3 implies #[trigger] after[3 * i + a] == if 0real
            < inv_mass[i] {
            wrapping_sum_i32(acc[3 * i + a], fix(d_i)[a])
        } else {
            acc[3 * i + a] as int
        } by {
            assert(after[3 * i + a] == first[3 * i + a]);
        }
        assert forall|a: int| 0 <= a < 3 implies #[trigger] after[3 * j + a] == if 0real
            < inv_mass[j] {
            wrapping_sum_i32(acc[3 * j + a], fix(d_j)[a])
        } else {
            acc[3 * j + a] as int
        } by {
            assert(first[3 * j + a] == acc[3 * j + a]);
        }
    }
}

/// The particles that one is looked at with take effect one after the other.
pub proof fn law_pairs_in_turn(
    m: ArithModel<real, Vector>,
    fix: spec_fn(Vector) -> [i32; 3],
    params: SimParams<real>,
    sim: Seq<Vector>,
    rest: Seq<Vector>,
    inv_mass: Seq<real>,
    acc: Seq<i32>,
    i: int,
    js: Seq<u32>,
    j: u32,
)
    ensures
        pairs_effect(m, fix, params, sim, rest, inv_mass, acc, i, Seq::empty()) == acc,
        pairs_effect(m, fix, params, sim, rest, inv_mass, acc, i, js.push(j)) == pair_effect(
            m,
            fix,
            params,
            sim,
            rest,
            inv_mass,
            pairs_effect(m, fix, params, sim, rest, inv_mass, acc, i, js),
            i,
            j as int,
        ),
{
    assert(js.push(j).drop_last() =~= js);
}

/// The kernel lets a free particle fall as the solver without a device does, as long as the floor is
/// not reached.
pub proof fn law_kernel_falls_as_without_device(
    m: ArithModel<real, Vector>,
    params: SimParams<real>,
    p: XpbdCpuTimeStepParams<real, Vector>,
    i: u32,
    x: Vector,
    v: Vector,
    w: real,
)
    requires
        exact(m),
        exact_parts(m),
        0real < w,
        params.grab_active == 0,
        p.dt == params.dt,
        p.gravity == (params.gravity[0], params.gravity[1], params.gravity[2]),
        p.floor_y <= kernel_prediction(m, params, i, x, v, w).0.1,
    ensures
        kernel_prediction(m, params, i, x, v, w) == m.fallen(x, v, p),
{
    let u = sum(v, multiple(p.gravity, p.dt));
    law_length(m, u);
    let speed = m.length(u);
    law_accelerated(m, v, p.gravity, p.dt, speed);
    law_fallen(m, x, v, p, speed);
    let slow = m.fallen(x, v, p).1;
    let kernel = kernel_prediction(m, params, i, x, v, w).1;
    if m.k.max_speed < speed {
        lemma_cancel(slow.0, kernel.0, speed);
        lemma_cancel(slow.1, kernel.1, speed);
        lemma_cancel(slow.2, kernel.2, speed);
    }
}

/// A free particle gets the velocity that takes it from where it was to where it is in the time of a
/// substep, times what drag leaves of it. A pinned one keeps its own.
pub proof fn law_kernel_velocity(
    m: ArithModel<real, Vector>,
    params: SimParams<real>,
    w: real,
    x: Vector,
    prev: Vector,
    v: Vector,
)
    requires
        exact(m),
        params.inv_dt * params.dt == 1real,
    ensures
        w <= 0real ==> kernel_velocity(m, params, w, x, prev, v) == v,
        0real < w ==> multiple(kernel_velocity(m, params, w, x, prev, v), params.dt) == multiple(
            difference(x, prev),
            (m.exp)(-(params.linear_drag_per_sec * params.dt)),
        ),
{
    law_velocity(m, x, prev, params.inv_dt, params.linear_drag_per_sec, params.dt);
}

/// A particle that can move is displaced by what its collisions add up to, along each axis up to the
/// limit. One that cannot stays.
pub proof fn law_kernel_displaced(m: ArithModel<real, Vector>, w: real, x: Vector, way: Vector)
    requires
        exact(m),
    ensures
        w <= 0real ==> kernel_displaced(m, w, x, way) == x,
        0real < w ==> difference(kernel_displaced(m, w, x, way), x) == (
            limited(way.0, m.k.collision_clamp),
            limited(way.1, m.k.collision_clamp),
            limited(way.2, m.k.collision_clamp),
        ),
{
    law_displaced(m, x, way);
}

/// The product of two vectors that is perpendicular to both.
pub open spec fn exact_cross(cross: spec_fn(Vector, Vector) -> Vector) -> bool {
    forall|a: Vector, b: Vector|
        #[trigger] cross(a, b) == (
            a.1 * b.2 - a.2 * b.1,
            a.2 * b.0 - a.0 * b.2,
            a.0 * b.1 - a.1 * b.0,
        )
}

/// The normal of a triangle does not depend on where the triangle is, or on which corner is the first
/// as long as the corners run round the same way. For a right angle from the first axis to the second it
/// is along the third axis, as long as the sides are multiplied.
pub proof fn law_face_normal(
    m: ArithModel<real, Vector>,
    cross: spec_fn(Vector, Vector) -> Vector,
    p0: Vector,
    p1: Vector,
    p2: Vector,
    way: Vector,
    a: real,
    b: real,
)
    requires
        exact(m),
        exact_cross(cross),
    ensures
        face_normal(m, cross, sum(p0, way), sum(p1, way), sum(p2, way)) == face_normal(
            m,
            cross,
            p0,
            p1,
            p2,
        ),
        face_normal(m, cross, p1, p2, p0) == face_normal(m, cross, p0, p1, p2),
        face_normal(
            m,
            cross,
            p0,
            sum(p0, (a, 0real, 0real)),
            sum(p0, (0real, b, 0real)),
        ) == (0real, 0real, a * b),
{
    let e = difference(p1, p0);
    let f = difference(p2, p0);
    assert(difference(sum(p1, way), sum(p0, way)) == e);
    assert(difference(sum(p2, way), sum(p0, way)) == f);
    let g = difference(p2, p1);
    let h = difference(p0, p1);
    lemma_turned_cross(e.1, e.2, f.1, f.2, g.1, g.2, h.1, h.2);
    lemma_turned_cross(e.2, e.0, f.2, f.0, g.2, g.0, h.2, h.0);
    lemma_turned_cross(e.0, e.1, f.0, f.1, g.0, g.1, h.0, h.1);
    assert(difference(sum(p0, (a, 0real, 0real)), p0) == (a, 0real, 0real));
    assert(difference(sum(p0, (0real, b, 0real)), p0) == (0real, b, 0real));
    lemma_spread(0real, 0real, 0real);
    lemma_spread(0real, 0real, a);
    lemma_spread(0real, 0real, b);
}

proof fn lemma_turned_cross(
    e: real,
    k: real,
    f: real,
    l: real,
    g: real,
    n: real,
    h: real,
    o: real,
)
    requires
        g == f - e,
        n == l - k,
        h == -e,
        o == -k,
    ensures
        g * o - n * h == e * l - k * f,
{
    lemma_spread(f, e, o);
    lemma_spread(l, k, h);
    lemma_negative(f, k);
    lemma_negative(e, k);
    lemma_negative(l, e);
    lemma_negative(k, e);
    lemma_swap(e, k);
    lemma_swap(f, k);
    lemma_swap(l, e);
}

/// The normal of a triangle is added to the three cells of each of its corners, and to no others.
pub proof fn law_normals_of_corners(
    acc: Seq<i32>,
    i0: int,
    i1: int,
    i2: int,
    d: Seq<i32>,
    p: int,
    a: int,
)
    requires
        i0 != i1,
        i1 != i2,
        i0 != i2,
        0 <= i0 && 3 * i0 + 2 < acc.len(),
        0 <= i1 && 3 * i1 + 2 < acc.len(),
        0 <= i2 && 3 * i2 + 2 < acc.len(),
        0 <= p && 3 * p + 2 < acc.len(),
        0 <= a < 3,
    ensures
        add_to_corners(acc, i0, i1, i2, d).len() == acc.len(),
        add_to_corners(acc, i0, i1, i2, d)[3 * p + a] == if p == i0 || p == i1 || p == i2 {
            wrapping_sum_i32(acc[3 * p + a], d[a])
        } else {
            acc[3 * p + a] as int
        },
{
}

/// The kernel and the solver without a device correct the ends of a constraint alike, where nothing is
/// grabbed and the edge is not compressed below its least length.
pub proof fn law_kernel_solves_as_without_device(
    m: ArithModel<real, Vector>,
    params: SimParams<real>,
    p: XpbdCpuTimeStepParams<real, Vector>,
    t: ConstraintTables<real>,
    thickness: real,
    coll_scale: real,
    state: (Seq<Vector>, Seq<real>, Seq<real>),
    e: int,
    len: real,
)
    requires
        exact(m),
        is_edge(t, state.0.len() as int, e),
        state.0.len() <= i32::MAX,
        state.1.len() == t.i.len(),
        state.2.len() == t.i.len(),
        m.k.tiny <= t.inv_mass[t.i[e] as int] + t.inv_mass[t.j[e] as int],
        params.grab_active == 0,
        params.jacobi_omega == p.jacobi_omega,
        0real < p.dt,
        params.inv_dt_sq * (p.dt * p.dt) == 1real,
        has_length(difference(state.0[t.i[e] as int], state.0[t.j[e] as int]), len),
        m.k.tiny <= len,
        t.rest_len[e] * m.k.compress_min <= len,
    ensures
        ({
            let (jac, lambda, _) = kernel_edge_step(m, params, t, state, e);
            (jac, lambda) == edge_step(
                cpu_model(m, p, thickness, coll_scale),
                t,
                (state.0, state.1),
                e,
            )
        }),
{
    assert(t.i[e] < state.0.len() && t.j[e] < state.0.len());
    let (i, j) = (t.i[e] as int, t.j[e] as int);
    let omega = params.jacobi_omega;
    let input = kernel_edge_input(params, t, 0real, state.0, state.1, e);
    assert(input == edge_of(t, state.0, state.1, e));
    let d = difference(input.p_i, input.p_j);
    law_length(m, d);
    lemma_same_root(len, m.length(d));
    lemma_positive(p.dt, p.dt);
    let time = p.dt * p.dt;
    let soft = input.compliance * params.inv_dt_sq;
    let other = input.compliance / time;
    lemma_quotient(input.compliance, time);
    lemma_shift(input.compliance, params.inv_dt_sq, time);
    lemma_one(input.compliance, params.inv_dt_sq * time);
    lemma_cancel(soft, other, time);
    if soft < 0real {
        lemma_negative(soft, time);
        lemma_positive(-soft, time);
    }
    let c = cpu_model(m, p, thickness, coll_scale);
    assert((c.solve)(input) == m.relaxed(input, p));
    let weights = (input.w_i + input.w_j) + soft;
    let dlam = (-(len - input.rest) - soft * input.lambda) / weights;
    assert(m.delta_lambda(
        len,
        input.rest,
        input.w_i,
        input.w_j,
        input.compliance,
        params.inv_dt_sq,
        input.lambda,
    ) == dlam);
    let after = edge_step(c, t, (state.0, state.1), e);
    let (jac, lambda, _) = kernel_edge_step(m, params, t, state, e);
    if dlam == 0real {
        let s = m.relaxed(input, p).unwrap();
        lemma_unit(d, len);
        let g = (d.0 / len, d.1 / len, d.2 / len);
        law_corrections(m, g, omega, input.w_i, input.w_j, dlam);
        lemma_spread(0real, 0real, omega * input.w_i);
        lemma_spread(0real, 0real, omega * input.w_j);
        lemma_spread(0real, 0real, g.0);
        lemma_spread(0real, 0real, g.1);
        lemma_spread(0real, 0real, g.2);
        assert(s.p_i == input.p_i && s.p_j == input.p_j && s.lambda == input.lambda);
        assert(after.0 =~= state.0);
        assert(after.1 =~= state.1);
    } else {
        assert(after.0 =~= jac);
        assert(after.1 =~= lambda);
    }
}

} // verus!
