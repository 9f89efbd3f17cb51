//! The formulas over real numbers.
//!
//! Over real numbers the operations have the values that their names say, and the formulas have the
//! properties that the simulation is made for.

use vstd::prelude::*;

use crate::arith::ArithModel;
use crate::reals::{
    lemma_cancel, lemma_negative, lemma_nonzero, lemma_not_negative, lemma_one, lemma_positive,
    lemma_product_square, lemma_quotient, lemma_same_root, lemma_shift, lemma_spread, lemma_square,
    lemma_swap,
};
use crate::substep::XpbdCpuTimeStepParams;
use crate::types::CollGridUniform;

verus! {

/// A vector of real numbers.
pub type Vector = (real, real, real);

pub open spec fn sum(a: Vector, b: Vector) -> Vector {
    (a.0 + b.0, a.1 + b.1, a.2 + b.2)
}

pub open spec fn difference(a: Vector, b: Vector) -> Vector {
    (a.0 - b.0, a.1 - b.1, a.2 - b.2)
}

pub open spec fn multiple(v: Vector, a: real) -> Vector {
    (v.0 * a, v.1 * a, v.2 * a)
}

pub open spec fn product(a: Vector, b: Vector) -> real {
    a.0 * b.0 + a.1 * b.1 + a.2 * b.2
}

/// `a` limited to `limit` in absolute value.
pub open spec fn limited(a: real, limit: real) -> real {
    if a < -limit {
        -limit
    } else if limit < a {
        limit
    } else {
        a
    }
}

/// The vector has the given length.
pub open spec fn has_length(v: Vector, l: real) -> bool {
    &&& 0real <= l
    &&& l * l == product(v, v)
}

/// The operations on scalars are those of the real numbers.
pub open spec fn exact_scalars(m: ArithModel<real, Vector>) -> bool {
    &&& forall|a: real, b: real| #[trigger] (m.lt)(a, b) <==> a < b
    &&& forall|a: real, b: real| #[trigger] (m.le)(a, b) <==> a <= b
    &&& forall|a: real, b: real| #[trigger] (m.eq)(a, b) <==> a == b
    &&& forall|a: real, b: real| #[trigger] (m.plus)(a, b) == a + b
    &&& forall|a: real, b: real| #[trigger] (m.minus)(a, b) == a - b
    &&& forall|a: real, b: real| #[trigger] (m.times)(a, b) == a * b
    &&& forall|a: real, b: real| #[trigger] (m.over)(a, b) == a / b
    &&& forall|a: real, b: real|
        #[trigger] (m.min)(a, b) == if a < b {
            a
        } else {
            b
        }
    &&& forall|a: real, b: real|
        #[trigger] (m.max)(a, b) == if a < b {
            b
        } else {
            a
        }
    &&& forall|a: real| #[trigger] (m.neg)(a) == -a
    &&& forall|a: real|
        0real <= a ==> 0real <= #[trigger] (m.sqrt)(a) && (m.sqrt)(a) * (m.sqrt)(a) == a
}

/// The operations on vectors are those on the components.
pub open spec fn exact_vectors(m: ArithModel<real, Vector>) -> bool {
    &&& forall|a: Vector, b: Vector| #[trigger] (m.v_plus)(a, b) == sum(a, b)
    &&& forall|a: Vector, b: Vector| #[trigger] (m.v_minus)(a, b) == difference(a, b)
    &&& forall|v: Vector, a: real| #[trigger] (m.v_times)(v, a) == multiple(v, a)
    &&& forall|v: Vector, a: real|
        #[trigger] (m.v_over)(v, a) == (v.0 / a, v.1 / a, v.2 / a)
    &&& forall|v: Vector| #[trigger] (m.v_neg)(v) == (-v.0, -v.1, -v.2)
    &&& forall|a: Vector, b: Vector| #[trigger] (m.dot)(a, b) == product(a, b)
    &&& forall|v: Vector| #[trigger] (m.height)(v) == v.1
    &&& forall|v: Vector, a: real| #[trigger] (m.at_height)(v, a) == (v.0, a, v.2)
    &&& forall|v: Vector, a: real|
        #[trigger] (m.confine)(v, a) == (limited(v.0, a), limited(v.1, a), limited(v.2, a))
}

/// The constants are what they are called, and the limits are positive.
pub open spec fn exact_constants(m: ArithModel<real, Vector>) -> bool {
    &&& m.k.zero == 0real
    &&& m.k.one == 1real
    &&& m.k.origin == (0real, 0real, 0real)
    &&& m.k.up == (0real, 1real, 0real)
    &&& 0real < m.k.tiny
    &&& 0real < m.k.tiny_sq
    &&& 0real < m.k.coincident
    &&& 0real < m.k.local_reach
    &&& 0real < m.k.compress_min < 1real
    &&& 0real < m.k.correction_cap
    &&& 0real < m.k.grab_max_pull
    &&& 0real < m.k.max_speed
    &&& 0real < m.k.collision_clamp
}

/// The operations are exact.
pub open spec fn exact(m: ArithModel<real, Vector>) -> bool {
    &&& exact_scalars(m)
    &&& exact_vectors(m)
    &&& exact_constants(m)
}

/// The square of a multiple of a vector.
pub(crate) proof fn lemma_multiple_square(v: Vector, a: real)
    ensures
        product(multiple(v, a), multiple(v, a)) == product(v, v) * (a * a),
{
    lemma_product_square(v.0, a);
    lemma_product_square(v.1, a);
    lemma_product_square(v.2, a);
    lemma_spread(v.0 * v.0, v.1 * v.1, a * a);
    lemma_spread(v.0 * v.0 + v.1 * v.1, v.2 * v.2, a * a);
}

/// What is computed as the length of a vector is its length.
pub proof fn law_length(m: ArithModel<real, Vector>, v: Vector)
    requires
        exact(m),
    ensures
        has_length(v, m.length(v)),
{
    lemma_square(v.0);
    lemma_square(v.1);
    lemma_square(v.2);
}

/// A multiple of a vector is as many times as long.
pub(crate) proof fn lemma_multiple_length(v: Vector, a: real, l: real)
    requires
        has_length(v, l),
    ensures
        0real <= a ==> has_length(multiple(v, a), l * a),
        a <= 0real ==> has_length(multiple(v, a), l * (-a)),
{
    lemma_multiple_square(v, a);
    lemma_product_square(l, a);
    lemma_product_square(l, -a);
    lemma_negative(a, a);
    lemma_negative(a, -a);
    if 0real <= a {
        lemma_not_negative(l, a);
    }
    if a <= 0real {
        lemma_not_negative(l, -a);
    }
}

/// A vector up to the cap is kept. A longer one keeps its direction and gets the length of the cap.
pub proof fn law_shortened(m: ArithModel<real, Vector>, v: Vector, cap: real, l: real)
    requires
        exact(m),
        0real < cap,
        has_length(v, l),
    ensures
        l <= cap ==> m.shortened(v, cap) == v,
        cap < l ==> {
            &&& has_length(m.shortened(v, cap), cap)
            &&& multiple(m.shortened(v, cap), l) == multiple(v, cap)
        },
{
    law_length(m, v);
    lemma_same_root(l, m.length(v));
    if cap < l {
        let s = cap / l;
        lemma_quotient(cap, l);
        lemma_swap(s, l);
        lemma_multiple_square(v, s);
        lemma_product_square(l, s);
        lemma_shift(v.0, s, l);
        lemma_shift(v.1, s, l);
        lemma_shift(v.2, s, l);
    }
}

/// The velocity that gravity gives a particle in a time `dt` is `v + gravity dt` up to the speed
/// limit. Beyond, it keeps that direction and has the speed of the limit.
pub proof fn law_accelerated(
    m: ArithModel<real, Vector>,
    v: Vector,
    gravity: Vector,
    dt: real,
    speed: real,
)
    requires
        exact(m),
        has_length(sum(v, multiple(gravity, dt)), speed),
    ensures
        speed <= m.k.max_speed ==> m.accelerated(v, gravity, dt) == sum(v, multiple(gravity, dt)),
        m.k.max_speed < speed ==> {
            let u = m.accelerated(v, gravity, dt);
            &&& has_length(u, m.k.max_speed)
            &&& multiple(u, speed) == multiple(sum(v, multiple(gravity, dt)), m.k.max_speed)
        },
{
    let u = sum(v, multiple(gravity, dt));
    law_shortened(m, u, m.k.max_speed, speed);
    law_length(m, u);
    lemma_same_root(speed, m.length(u));
}

/// A free particle goes on along the velocity that it gets. A pinned one stays.
pub proof fn law_predicted(
    m: ArithModel<real, Vector>,
    x: Vector,
    v: Vector,
    w: real,
    gravity: Vector,
    target: Vector,
    dt: real,
    stiffness: real,
)
    requires
        exact(m),
    ensures
        ({
            let (y, u) = m.predicted(false, x, v, w, gravity, target, dt, stiffness);
            &&& w <= 0real ==> y == x && u == v
            &&& 0real < w ==> u == m.accelerated(v, gravity, dt)
            &&& 0real < w ==> y == sum(x, multiple(u, dt))
        }),
        m.predicted(true, x, v, w, gravity, target, dt, stiffness) == (
            m.pulled(x, target, stiffness),
            v,
        ),
{
}

/// Without gravity a free particle below the speed limit keeps its velocity, and moves by as much as
/// that takes it.
pub proof fn law_inertia(
    m: ArithModel<real, Vector>,
    x: Vector,
    v: Vector,
    w: real,
    target: Vector,
    dt: real,
    stiffness: real,
    speed: real,
)
    requires
        exact(m),
        0real < w,
        has_length(v, speed),
        speed <= m.k.max_speed,
    ensures
        m.predicted(false, x, v, w, (0real, 0real, 0real), target, dt, stiffness) == (
            sum(x, multiple(v, dt)),
            v,
        ),
{
    lemma_spread(0real, 0real, dt);
    law_accelerated(m, v, (0real, 0real, 0real), dt, speed);
}

/// A particle over a floor gets the velocity `v + gravity dt` up to the speed limit, beyond it that
/// direction with the speed of the limit. It moves by as much as its new velocity takes it, and what
/// would end below the floor ends on it.
pub proof fn law_fallen(
    m: ArithModel<real, Vector>,
    x: Vector,
    v: Vector,
    p: XpbdCpuTimeStepParams<real, Vector>,
    speed: real,
)
    requires
        exact(m),
        has_length(sum(v, multiple(p.gravity, p.dt)), speed),
    ensures
        ({
            let (y, u) = m.fallen(x, v, p);
            let way = sum(x, multiple(u, p.dt));
            &&& speed <= m.k.max_speed ==> u == sum(v, multiple(p.gravity, p.dt))
            &&& m.k.max_speed < speed ==> {
                &&& has_length(u, m.k.max_speed)
                &&& multiple(u, speed) == multiple(
                    sum(v, multiple(p.gravity, p.dt)),
                    m.k.max_speed,
                )
            }
            &&& p.floor_y <= way.1 ==> y == way
            &&& way.1 < p.floor_y ==> y == (way.0, p.floor_y, way.2)
            &&& p.floor_y <= y.1
        }),
{
    law_shortened(m, sum(v, multiple(p.gravity, p.dt)), m.k.max_speed, speed);
}

/// Without gravity a particle that stays above the floor and below the speed limit keeps its
/// velocity, and moves by as much as that takes it.
pub proof fn law_inertia_above_floor(
    m: ArithModel<real, Vector>,
    x: Vector,
    v: Vector,
    p: XpbdCpuTimeStepParams<real, Vector>,
    speed: real,
)
    requires
        exact(m),
        p.gravity == (0real, 0real, 0real),
        has_length(v, speed),
        speed <= m.k.max_speed,
        p.floor_y <= sum(x, multiple(v, p.dt)).1,
    ensures
        m.fallen(x, v, p) == (sum(x, multiple(v, p.dt)), v),
{
    lemma_spread(0real, 0real, p.dt);
    law_fallen(m, x, v, p, speed);
}

/// A grabbed particle moves by the stiffness times its offset to the target, for a stiffness from
/// zero to one and within the longest pull. So a positive stiffness moves a particle that is not at
/// its target. A longer pull keeps the direction and has the length of the longest one.
pub proof fn law_pulled(
    m: ArithModel<real, Vector>,
    x: Vector,
    target: Vector,
    stiffness: real,
    distance: real,
)
    requires
        exact(m),
        0real <= stiffness <= 1real,
        has_length(difference(target, x), distance),
    ensures
        distance * stiffness <= m.k.grab_max_pull ==> m.pulled(x, target, stiffness) == sum(
            x,
            multiple(difference(target, x), stiffness),
        ),
        m.k.grab_max_pull < distance * stiffness ==> {
            let way = difference(m.pulled(x, target, stiffness), x);
            &&& has_length(way, m.k.grab_max_pull)
            &&& multiple(way, distance) == multiple(difference(target, x), m.k.grab_max_pull)
        },
        0real < stiffness && target != x ==> m.pulled(x, target, stiffness) != x,
{
    let d = difference(target, x);
    let way = multiple(d, stiffness);
    let cap = m.k.grab_max_pull;
    lemma_multiple_length(d, stiffness, distance);
    law_shortened(m, way, cap, distance * stiffness);
    let short = m.shortened(way, cap);
    assert(difference(sum(x, short), x) == short);
    if cap < distance * stiffness {
        if stiffness == 0real {
            lemma_spread(0real, 0real, distance);
            lemma_swap(distance, stiffness);
        }
        lemma_repeated(short.0, d.0, distance, stiffness, cap);
        lemma_repeated(short.1, d.1, distance, stiffness, cap);
        lemma_repeated(short.2, d.2, distance, stiffness, cap);
        if short == (0real, 0real, 0real) {
            lemma_positive(cap, cap);
            lemma_spread(0real, 0real, 0real);
        }
    } else if 0real < stiffness && target != x {
        if d.0 != 0real {
            lemma_nonzero(d.0, stiffness);
        }
        if d.1 != 0real {
            lemma_nonzero(d.1, stiffness);
        }
        if d.2 != 0real {
            lemma_nonzero(d.2, stiffness);
        }
    }
}

proof fn lemma_repeated(short: real, d: real, distance: real, stiffness: real, cap: real)
    requires
        stiffness != 0real,
        short * (distance * stiffness) == (d * stiffness) * cap,
    ensures
        short * distance == d * cap,
{
    lemma_shift(short, distance, stiffness);
    lemma_shift(d, stiffness, cap);
    lemma_swap(stiffness, cap);
    lemma_shift(d, cap, stiffness);
    lemma_cancel(short * distance, d * cap, stiffness);
}

/// A stiffness below zero pulls as zero does, one above one as one does.
pub proof fn law_pull_is_bounded(
    m: ArithModel<real, Vector>,
    x: Vector,
    target: Vector,
    stiffness: real,
)
    requires
        exact(m),
    ensures
        stiffness < 0real ==> m.pulled(x, target, stiffness) == x,
        1real < stiffness ==> m.pulled(x, target, stiffness) == m.pulled(x, target, 1real),
{
    let d = difference(target, x);
    if stiffness < 0real {
        law_length(m, d);
        law_pulled(m, x, target, 0real, m.length(d));
        lemma_spread(0real, 0real, m.length(d));
        lemma_spread(0real, 0real, d.0);
        lemma_spread(0real, 0real, d.1);
        lemma_spread(0real, 0real, d.2);
        assert(m.pulled(x, target, stiffness) == m.pulled(x, target, 0real));
    }
}

/// What is left of the way to the grab target is the rest of the stiffness.
pub proof fn law_attracted(
    m: ArithModel<real, Vector>,
    x: Vector,
    p: XpbdCpuTimeStepParams<real, Vector>,
)
    requires
        exact(m),
    ensures
        difference(p.grab_target, m.attracted(x, p)) == multiple(
            difference(p.grab_target, x),
            1real - p.grab_stiffness,
        ),
{
    let d = difference(p.grab_target, x);
    lemma_spread(1real, p.grab_stiffness, d.0);
    lemma_spread(1real, p.grab_stiffness, d.1);
    lemma_spread(1real, p.grab_stiffness, d.2);
    lemma_swap(d.0, p.grab_stiffness);
    lemma_swap(d.1, p.grab_stiffness);
    lemma_swap(d.2, p.grab_stiffness);
}

/// Collisions displace a particle by what they add up to, along each axis by no more than the limit.
pub proof fn law_displaced(m: ArithModel<real, Vector>, x: Vector, sum_of: Vector)
    requires
        exact(m),
    ensures
        ({
            let way = difference(m.displaced(x, sum_of), x);
            let limit = m.k.collision_clamp;
            &&& way == (limited(sum_of.0, limit), limited(sum_of.1, limit), limited(sum_of.2, limit))
            &&& -limit <= way.0 <= limit && -limit <= way.1 <= limit && -limit <= way.2 <= limit
        }),
{
}

/// A vector gets the direction of itself with length one, one that is too short the direction
/// upwards.
pub proof fn law_direction(m: ArithModel<real, Vector>, n: Vector, l: real)
    requires
        exact(m),
        has_length(n, l),
    ensures
        has_length(m.direction(n), 1real),
        m.k.tiny < l ==> multiple(m.direction(n), l) == n,
        l <= m.k.tiny ==> m.direction(n) == (0real, 1real, 0real),
{
    law_length(m, n);
    lemma_same_root(l, m.length(n));
    if m.k.tiny < l {
        lemma_unit(n, l);
    } else {
        lemma_spread(0real, 0real, 0real);
    }
}

/// A particle that moved from `prev` to `x` in a time `dt` gets the velocity that would take it there
/// again, times what drag leaves of it.
pub proof fn law_velocity(
    m: ArithModel<real, Vector>,
    x: Vector,
    prev: Vector,
    inv_dt: real,
    drag: real,
    dt: real,
)
    requires
        exact(m),
        inv_dt * dt == 1real,
    ensures
        multiple(m.velocity(x, prev, inv_dt, drag, dt), dt) == multiple(
            difference(x, prev),
            (m.exp)(-(drag * dt)),
        ),
        (m.exp)(-(drag * dt)) == 1real ==> sum(
            prev,
            multiple(m.velocity(x, prev, inv_dt, drag, dt), dt),
        ) == x,
{
    lemma_negative(drag, dt);
    let damp = (m.exp)((-drag) * dt);
    assert(damp == (m.exp)(-(drag * dt)));
    let d = difference(x, prev);
    lemma_velocity_part(d.0, inv_dt, dt, damp);
    lemma_velocity_part(d.1, inv_dt, dt, damp);
    lemma_velocity_part(d.2, inv_dt, dt, damp);
    if damp == 1real {
        lemma_one(d.0, damp);
        lemma_one(d.1, damp);
        lemma_one(d.2, damp);
    }
}

proof fn lemma_velocity_part(d: real, inv_dt: real, dt: real, damp: real)
    requires
        inv_dt * dt == 1real,
    ensures
        ((d * inv_dt) * damp) * dt == d * damp,
{
    lemma_shift(d * inv_dt, damp, dt);
    lemma_swap(damp, dt);
    lemma_shift(d * inv_dt, dt, damp);
    lemma_shift(d, inv_dt, dt);
    lemma_one(d, inv_dt * dt);
}

/// The operations that take vectors apart and round are exact.
pub open spec fn exact_parts(m: ArithModel<real, Vector>) -> bool {
    &&& forall|v: Vector| #[trigger] (m.parts)(v) == [v.0, v.1, v.2]
    &&& forall|a: [real; 4]| #[trigger] (m.xyz)(a) == (a[0], a[1], a[2])
    &&& forall|a: real| #[trigger] representable(a) ==> {
        let n = (m.floor)(a) as real;
        n <= a < n + 1real
    }
}

/// The number can be rounded down to an `i32`.
pub open spec fn representable(a: real) -> bool {
    (i32::MIN as real) <= a < (i32::MAX as real) + 1real
}

/// A position is in the grid cell of its coordinates: along each axis it is not before the near side
/// of the cell, and before the far one.
pub proof fn law_grid_coords(
    m: ArithModel<real, Vector>,
    grid: CollGridUniform<real>,
    p: Vector,
    cell: real,
)
    requires
        exact(m),
        exact_parts(m),
        0real < cell,
        grid.inv_cell * cell == 1real,
        representable((p.0 - grid.grid_origin_pad[0]) * grid.inv_cell),
        representable((p.1 - grid.grid_origin_pad[1]) * grid.inv_cell),
        representable((p.2 - grid.grid_origin_pad[2]) * grid.inv_cell),
    ensures
        ({
            let c = m.grid_coords(grid, p);
            let o = grid.grid_origin_pad;
            &&& o[0] + (c[0] as real) * cell <= p.0 < o[0] + (c[0] as real + 1real) * cell
            &&& o[1] + (c[1] as real) * cell <= p.1 < o[1] + (c[1] as real + 1real) * cell
            &&& o[2] + (c[2] as real) * cell <= p.2 < o[2] + (c[2] as real + 1real) * cell
        }),
{
    let c = m.grid_coords(grid, p);
    let o = grid.grid_origin_pad;
    lemma_in_cell(p.0 - o[0], grid.inv_cell, cell, c[0] as real);
    lemma_in_cell(p.1 - o[1], grid.inv_cell, cell, c[1] as real);
    lemma_in_cell(p.2 - o[2], grid.inv_cell, cell, c[2] as real);
}

proof fn lemma_in_cell(d: real, inv: real, cell: real, n: real)
    requires
        0real < cell,
        inv * cell == 1real,
        n <= d * inv < n + 1real,
    ensures
        n * cell <= d < (n + 1real) * cell,
{
    lemma_shift(d, inv, cell);
    lemma_one(d, inv * cell);
    lemma_not_negative(d * inv - n, cell);
    lemma_spread(d * inv, n, cell);
    lemma_positive(n + 1real - d * inv, cell);
    lemma_spread(n + 1real, d * inv, cell);
}

/// A vector over its length has length one.
pub(crate) proof fn lemma_unit(v: Vector, l: real)
    requires
        has_length(v, l),
        0real < l,
    ensures
        has_length((v.0 / l, v.1 / l, v.2 / l), 1real),
        multiple((v.0 / l, v.1 / l, v.2 / l), l) == v,
{
    let g = (v.0 / l, v.1 / l, v.2 / l);
    lemma_quotient(v.0, l);
    lemma_quotient(v.1, l);
    lemma_quotient(v.2, l);
    lemma_multiple_square(g, l);
    lemma_positive(l, l);
    lemma_cancel(product(g, g), 1real, l * l);
}

} // verus!
