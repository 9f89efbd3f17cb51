//! Distance constraints over real numbers.

use vstd::prelude::*;

use crate::arith::ArithModel;
use crate::exact::{
    difference, exact, has_length, law_length, law_shortened, lemma_multiple_length,
    lemma_multiple_square, lemma_unit, limited, multiple, product, sum, Vector,
};
use crate::reals::{
    lemma_cancel, lemma_negative, lemma_positive, lemma_quotient, lemma_same_root, lemma_shift,
    lemma_spread, lemma_swap,
};
use crate::substep::{EdgeInput, XpbdCpuTimeStepParams};

verus! {

/// The correction of an end of inverse mass `w` is not longer than the cap.
pub open spec fn within_cap(
    m: ArithModel<real, Vector>,
    omega: real,
    w: real,
    dlam: real,
) -> bool {
    -m.k.correction_cap <= (omega * w) * dlam <= m.k.correction_cap
}

/// The change of the multiplier solves the constraint: with it the ends would be as far apart as
/// the edge is long at rest, but for what the multiplier makes up for by compliance. Where the edge
/// is compressed too far, they would be its least length apart.
pub proof fn law_multiplier_solves(
    m: ArithModel<real, Vector>,
    len: real,
    rest: real,
    w_i: real,
    w_j: real,
    compliance: real,
    inv_dt_sq: real,
    lambda: real,
)
    requires
        exact(m),
        m.k.tiny <= len,
        0real <= w_i,
        0real <= w_j,
        m.k.tiny <= w_i + w_j,
        0real <= compliance * inv_dt_sq,
    ensures
        ({
            let dlam = m.delta_lambda(len, rest, w_i, w_j, compliance, inv_dt_sq, lambda);
            let length = len + (w_i + w_j) * dlam;
            &&& len < rest * m.k.compress_min ==> length == rest * m.k.compress_min
            &&& rest * m.k.compress_min <= len ==> length + (compliance * inv_dt_sq) * (lambda
                + dlam) == rest
        }),
{
    let weights = w_i + w_j;
    let soft = compliance * inv_dt_sq;
    let least = rest * m.k.compress_min;
    let dlam = m.delta_lambda(len, rest, w_i, w_j, compliance, inv_dt_sq, lambda);
    if len < least {
        lemma_quotient(-(len - least), weights);
        lemma_swap(dlam, weights);
    } else {
        lemma_quotient(-(len - rest) - soft * lambda, weights + soft);
        lemma_spread(weights, soft, dlam);
        lemma_swap(dlam, weights + soft);
        lemma_spread(lambda, dlam, soft);
    }
}

/// Nothing is solved where the ends coincide, where neither can move, or where the weights of the
/// constraint are next to nothing.
pub proof fn law_idle_edges(
    m: ArithModel<real, Vector>,
    e: EdgeInput<real, Vector>,
    p: XpbdCpuTimeStepParams<real, Vector>,
    inv_dt_sq: real,
    omega: real,
    len: real,
)
    requires
        exact(m),
        has_length(difference(e.p_i, e.p_j), len),
    ensures
        len < m.k.tiny ==> m.solved(e, inv_dt_sq, omega) is None && m.relaxed(e, p) is None,
        e.w_i <= 0real && e.w_j <= 0real ==> m.solved(e, inv_dt_sq, omega) is None,
        e.w_i + e.w_j < m.k.tiny && len < e.rest * m.k.compress_min ==> m.solved(
            e,
            inv_dt_sq,
            omega,
        ) is None,
        (e.w_i + e.w_j) + e.compliance * inv_dt_sq < m.k.tiny && e.rest * m.k.compress_min <= len
            ==> m.solved(e, inv_dt_sq, omega) is None,
        (e.w_i + e.w_j) + e.compliance / (p.dt * p.dt) < m.k.tiny ==> m.relaxed(e, p) is None,
{
    law_length(m, difference(e.p_i, e.p_j));
    lemma_same_root(len, m.length(difference(e.p_i, e.p_j)));
}

proof fn lemma_thrice(x: real, a: real, b: real, c: real)
    ensures
        ((x * a) * b) * c == x * ((a * b) * c),
{
    lemma_shift(x, a, b);
    lemma_shift(x, a * b, c);
}

/// A multiple of a unit vector, shortened to the cap, is the limited multiple.
proof fn lemma_shortened_unit(m: ArithModel<real, Vector>, g: Vector, t: real, cap: real)
    requires
        exact(m),
        0real < cap,
        has_length(g, 1real),
    ensures
        m.shortened(multiple(g, t), cap) == multiple(g, limited(t, cap)),
{
    lemma_multiple_length(g, t, 1real);
    let l = if 0real <= t {
        t
    } else {
        -t
    };
    law_shortened(m, multiple(g, t), cap, l);
    if cap < l {
        let u = m.shortened(multiple(g, t), cap);
        let s = limited(t, cap);
        lemma_unit_part(u.0, g.0, t, l, s, cap);
        lemma_unit_part(u.1, g.1, t, l, s, cap);
        lemma_unit_part(u.2, g.2, t, l, s, cap);
    }
}

proof fn lemma_unit_part(u: real, g: real, t: real, l: real, s: real, cap: real)
    requires
        0real < l,
        t == l && s == cap || t == -l && s == -cap,
        u * l == (g * t) * cap,
    ensures
        u == g * s,
{
    lemma_shift(g, t, cap);
    lemma_negative(l, cap);
    lemma_swap(l, cap);
    lemma_negative(cap, l);
    assert(t * cap == s * l);
    lemma_shift(g, s, l);
    lemma_cancel(u, g * s, l);
}

/// Each end of a constraint is corrected along the unit vector between them, in proportion to its own
/// inverse mass and up to the cap: the first end forth, the second one back.
pub proof fn law_corrections(
    m: ArithModel<real, Vector>,
    g: Vector,
    omega: real,
    w_i: real,
    w_j: real,
    dlam: real,
)
    requires
        exact(m),
        has_length(g, 1real),
    ensures
        m.corrections(g, omega, w_i, w_j, dlam) == (
            multiple(g, limited((omega * w_i) * dlam, m.k.correction_cap)),
            multiple(g, -limited((omega * w_j) * dlam, m.k.correction_cap)),
        ),
{
    let cap = m.k.correction_cap;
    let s = (omega * w_i) * dlam;
    let t = (omega * w_j) * dlam;
    lemma_thrice(g.0, omega, w_i, dlam);
    lemma_thrice(g.1, omega, w_i, dlam);
    lemma_thrice(g.2, omega, w_i, dlam);
    lemma_thrice(g.0, omega, w_j, dlam);
    lemma_thrice(g.1, omega, w_j, dlam);
    lemma_thrice(g.2, omega, w_j, dlam);
    assert(multiple(multiple(multiple(g, omega), w_i), dlam) == multiple(g, s));
    assert(multiple(multiple(multiple(g, omega), w_j), dlam) == multiple(g, t));
    lemma_negative(g.0, t);
    lemma_negative(g.1, t);
    lemma_negative(g.2, t);
    assert((m.v_neg)(multiple(g, t)) == multiple(g, -t));
    lemma_shortened_unit(m, g, s, cap);
    lemma_shortened_unit(m, g, -t, cap);
}

/// To exchange the ends of a constraint, with the unit vector between them turned round, exchanges
/// their corrections.
pub proof fn law_exchanged_corrections(
    m: ArithModel<real, Vector>,
    g: Vector,
    omega: real,
    w_i: real,
    w_j: real,
    dlam: real,
)
    requires
        exact(m),
        has_length(g, 1real),
    ensures
        ({
            let (d_i, d_j) = m.corrections(g, omega, w_i, w_j, dlam);
            m.corrections(multiple(g, -1real), omega, w_j, w_i, dlam) == (d_j, d_i)
        }),
{
    let cap = m.k.correction_cap;
    let s = limited((omega * w_i) * dlam, cap);
    let t = limited((omega * w_j) * dlam, cap);
    lemma_multiple_length(g, -1real, 1real);
    law_corrections(m, g, omega, w_i, w_j, dlam);
    law_corrections(m, multiple(g, -1real), omega, w_j, w_i, dlam);
    lemma_turned(g.0, s);
    lemma_turned(g.1, s);
    lemma_turned(g.2, s);
    lemma_turned(g.0, t);
    lemma_turned(g.1, t);
    lemma_turned(g.2, t);
}

proof fn lemma_turned(x: real, s: real)
    ensures
        (x * (-1real)) * s == x * (-s),
        (x * (-1real)) * (-s) == x * s,
{
    lemma_shift(x, -1real, s);
    lemma_shift(x, -1real, -s);
    lemma_negative(1real, s);
    lemma_negative(1real, -s);
}

/// The two ends of a constraint, moved along the line between them by amounts `s` and `-t`.
spec fn moved(p_i: Vector, p_j: Vector, g: Vector, s: real, t: real) -> (Vector, Vector) {
    (sum(p_i, multiple(g, s)), sum(p_j, multiple(g, -t)))
}

proof fn lemma_moved(p_i: Vector, p_j: Vector, g: Vector, len: real, s: real, t: real)
    requires
        0real < len,
        multiple(g, len) == difference(p_i, p_j),
    ensures
        ({
            let (q_i, q_j) = moved(p_i, p_j, g, s, t);
            &&& difference(q_i, q_j) == multiple(g, len + (s + t))
            &&& multiple(difference(q_i, q_j), len) == multiple(
                difference(p_i, p_j),
                len + (s + t),
            )
        }),
{
    lemma_moved_part(p_i.0, p_j.0, g.0, len, s, t);
    lemma_moved_part(p_i.1, p_j.1, g.1, len, s, t);
    lemma_moved_part(p_i.2, p_j.2, g.2, len, s, t);
}

proof fn lemma_moved_part(x: real, y: real, g: real, len: real, s: real, t: real)
    requires
        g * len == x - y,
    ensures
        (x + g * s) - (y + g * (-t)) == g * (len + (s + t)),
        (g * (len + (s + t))) * len == (x - y) * (len + (s + t)),
{
    lemma_negative(g, t);
    lemma_spread(s, t, g);
    lemma_spread(len, s + t, g);
    lemma_shift(g, len + (s + t), len);
    lemma_swap(len + (s + t), len);
    lemma_shift(g, len, len + (s + t));
}

/// Opposite moves in proportion to the weights keep the centre of mass.
proof fn lemma_balance(g: Vector, omega: real, w_i: real, w_j: real, dlam: real)
    ensures
        sum(
            multiple(multiple(g, (omega * w_i) * dlam), w_j),
            multiple(multiple(g, -((omega * w_j) * dlam)), w_i),
        ) == (0real, 0real, 0real),
{
    lemma_balance_part(g.0, omega, w_i, w_j, dlam);
    lemma_balance_part(g.1, omega, w_i, w_j, dlam);
    lemma_balance_part(g.2, omega, w_i, w_j, dlam);
}

proof fn lemma_balance_part(g: real, omega: real, w_i: real, w_j: real, dlam: real)
    ensures
        (g * ((omega * w_i) * dlam)) * w_j + (g * (-((omega * w_j) * dlam))) * w_i == 0real,
{
    let s = (omega * w_i) * dlam;
    let t = (omega * w_j) * dlam;
    lemma_shift(g, s, w_j);
    lemma_shift(g, -t, w_i);
    lemma_negative(t, w_i);
    lemma_negative(g, t * w_i);
    lemma_shift(omega * w_i, dlam, w_j);
    lemma_swap(dlam, w_j);
    lemma_shift(omega * w_i, w_j, dlam);
    lemma_shift(omega, w_i, w_j);
    lemma_swap(w_i, w_j);
    lemma_shift(omega, w_j, w_i);
    lemma_shift(omega * w_j, w_i, dlam);
    lemma_swap(w_i, dlam);
    lemma_shift(omega * w_j, dlam, w_i);
}

proof fn lemma_two_weights(omega: real, w_i: real, w_j: real, dlam: real)
    ensures
        (omega * w_i) * dlam + (omega * w_j) * dlam == omega * ((w_i + w_j) * dlam),
{
    lemma_shift(omega, w_i, dlam);
    lemma_shift(omega, w_j, dlam);
    lemma_spread(w_i, w_j, dlam);
    lemma_spread(w_i * dlam, w_j * dlam, omega);
}

/// A solved constraint adds the change to its multiplier, and the change solves the constraint. Each
/// end moves along the line between them by `omega` times its own inverse mass times the change, up to
/// the cap. Within the cap, the distance of the ends changes by `omega` times what solves the
/// constraint, and their centre of mass stays where it is.
pub proof fn law_solved_edge(
    m: ArithModel<real, Vector>,
    e: EdgeInput<real, Vector>,
    inv_dt_sq: real,
    omega: real,
    len: real,
)
    requires
        exact(m),
        has_length(difference(e.p_i, e.p_j), len),
        m.k.tiny <= len,
        0real <= e.w_i,
        0real <= e.w_j,
        m.k.tiny <= e.w_i + e.w_j,
        0real <= e.compliance * inv_dt_sq,
    ensures
        m.solved(e, inv_dt_sq, omega) is None ==> {
            &&& e.rest * m.k.compress_min <= len
            &&& len + (e.compliance * inv_dt_sq) * e.lambda == e.rest
        },
        m.solved(e, inv_dt_sq, omega) matches Some(s) ==> {
            let weights = e.w_i + e.w_j;
            &&& s.lambda == e.lambda + s.dlam
            &&& multiple(difference(s.p_i, e.p_i), len) == multiple(
                difference(e.p_i, e.p_j),
                limited((omega * e.w_i) * s.dlam, m.k.correction_cap),
            )
            &&& multiple(difference(s.p_j, e.p_j), len) == multiple(
                difference(e.p_i, e.p_j),
                -limited((omega * e.w_j) * s.dlam, m.k.correction_cap),
            )
            &&& len < e.rest * m.k.compress_min ==> len + weights * s.dlam == e.rest
                * m.k.compress_min
            &&& e.rest * m.k.compress_min <= len ==> (len + weights * s.dlam) + (e.compliance
                * inv_dt_sq) * s.lambda == e.rest
            &&& within_cap(m, omega, e.w_i, s.dlam) && within_cap(m, omega, e.w_j, s.dlam) ==> {
                &&& multiple(difference(s.p_i, s.p_j), len) == multiple(
                    difference(e.p_i, e.p_j),
                    len + omega * (weights * s.dlam),
                )
                &&& sum(
                    multiple(difference(s.p_i, e.p_i), e.w_j),
                    multiple(difference(s.p_j, e.p_j), e.w_i),
                ) == (0real, 0real, 0real)
            }
        },
{
    let d = difference(e.p_i, e.p_j);
    law_length(m, d);
    lemma_same_root(len, m.length(d));
    let dlam = m.delta_lambda(len, e.rest, e.w_i, e.w_j, e.compliance, inv_dt_sq, e.lambda);
    law_multiplier_solves(m, len, e.rest, e.w_i, e.w_j, e.compliance, inv_dt_sq, e.lambda);
    lemma_unit(d, len);
    let g = (d.0 / len, d.1 / len, d.2 / len);
    law_corrections(m, g, omega, e.w_i, e.w_j, dlam);
    if dlam == 0real {
        lemma_spread(0real, 0real, e.w_i + e.w_j);
    } else {
        let s = (omega * e.w_i) * dlam;
        let t = (omega * e.w_j) * dlam;
        lemma_moved(e.p_i, e.p_j, g, len, s, t);
        lemma_two_weights(omega, e.w_i, e.w_j, dlam);
        lemma_balance(g, omega, e.w_i, e.w_j, dlam);
        lemma_along(e.p_i, d, g, len, limited(s, m.k.correction_cap));
        lemma_along(e.p_j, d, g, len, -limited(t, m.k.correction_cap));
    }
}

/// A point that is moved along the unit vector of `d`.
proof fn lemma_along(x: Vector, d: Vector, g: Vector, len: real, s: real)
    requires
        multiple(g, len) == d,
    ensures
        multiple(difference(sum(x, multiple(g, s)), x), len) == multiple(d, s),
{
    lemma_along_part(g.0, len, s);
    lemma_along_part(g.1, len, s);
    lemma_along_part(g.2, len, s);
    assert(difference(sum(x, multiple(g, s)), x) == multiple(g, s));
}

proof fn lemma_along_part(g: real, len: real, s: real)
    ensures
        (g * s) * len == (g * len) * s,
{
    lemma_shift(g, s, len);
    lemma_shift(g, len, s);
    lemma_swap(s, len);
}

/// Without compliance and with `omega` one, the ends of a solved constraint are as far apart as the
/// edge is long at rest, or its least length where it was compressed too far, as long as no
/// correction is over the cap.
pub proof fn law_rest_length(
    m: ArithModel<real, Vector>,
    e: EdgeInput<real, Vector>,
    inv_dt_sq: real,
    len: real,
)
    requires
        exact(m),
        has_length(difference(e.p_i, e.p_j), len),
        m.k.tiny <= len,
        0real <= e.rest,
        0real <= e.w_i,
        0real <= e.w_j,
        m.k.tiny <= e.w_i + e.w_j,
        e.compliance == 0real,
    ensures
        m.solved(e, inv_dt_sq, 1real) is None ==> has_length(difference(e.p_i, e.p_j), e.rest),
        m.solved(e, inv_dt_sq, 1real) matches Some(s) ==> within_cap(m, 1real, e.w_i, s.dlam)
            && within_cap(m, 1real, e.w_j, s.dlam) ==> has_length(
            difference(s.p_i, s.p_j),
            if len < e.rest * m.k.compress_min {
                e.rest * m.k.compress_min
            } else {
                e.rest
            },
        ),
{
    lemma_spread(0real, 0real, inv_dt_sq);
    lemma_spread(0real, 0real, e.lambda);
    law_solved_edge(m, e, inv_dt_sq, 1real, len);
    if let Some(s) = m.solved(e, inv_dt_sq, 1real) {
        lemma_spread(0real, 0real, s.lambda);
        let goal = len + (e.w_i + e.w_j) * s.dlam;
        let d = difference(s.p_i, s.p_j);
        if within_cap(m, 1real, e.w_i, s.dlam) && within_cap(m, 1real, e.w_j, s.dlam) {
            if 0real < e.rest {
                lemma_positive(e.rest, m.k.compress_min);
            } else {
                lemma_spread(0real, 0real, m.k.compress_min);
            }
            lemma_goal_length(d, difference(e.p_i, e.p_j), len, goal);
        }
    }
}

/// A vector that is another one stretched from length `len` to length `goal` has that length.
proof fn lemma_goal_length(u: Vector, d: Vector, len: real, goal: real)
    requires
        has_length(d, len),
        0real < len,
        0real <= goal,
        multiple(u, len) == multiple(d, goal),
    ensures
        has_length(u, goal),
{
    lemma_multiple_square(u, len);
    lemma_multiple_square(d, goal);
    lemma_positive(len, len);
    lemma_swap(len * len, goal * goal);
    lemma_cancel(product(u, u), goal * goal, len * len);
}

/// Without compliance the same holds of the constraints of a simulation without a device, which have
/// no least length. With compliance the new length and the new multiplier make up the rest length.
/// Within the cap, the centre of mass of the ends stays where it is.
pub proof fn law_relaxed_edge(
    m: ArithModel<real, Vector>,
    e: EdgeInput<real, Vector>,
    p: XpbdCpuTimeStepParams<real, Vector>,
    softness: real,
    dlam: real,
    len: real,
)
    requires
        exact(m),
        has_length(difference(e.p_i, e.p_j), len),
        0real < p.dt,
        softness * (p.dt * p.dt) == e.compliance,
        m.k.tiny <= len,
        m.k.tiny <= (e.w_i + e.w_j) + softness,
        m.relaxed(e, p) matches Some(s) ==> s.lambda == e.lambda + dlam,
    ensures
        m.relaxed(e, p) is Some,
        m.relaxed(e, p) matches Some(s) ==> {
            let weights = e.w_i + e.w_j;
            &&& (len + weights * dlam) + softness * s.lambda == e.rest
            &&& multiple(difference(s.p_i, e.p_i), len) == multiple(
                difference(e.p_i, e.p_j),
                limited((p.jacobi_omega * e.w_i) * dlam, m.k.correction_cap),
            )
            &&& multiple(difference(s.p_j, e.p_j), len) == multiple(
                difference(e.p_i, e.p_j),
                -limited((p.jacobi_omega * e.w_j) * dlam, m.k.correction_cap),
            )
            &&& within_cap(m, p.jacobi_omega, e.w_i, dlam) && within_cap(
                m,
                p.jacobi_omega,
                e.w_j,
                dlam,
            ) ==> {
                &&& multiple(difference(s.p_i, s.p_j), len) == multiple(
                    difference(e.p_i, e.p_j),
                    len + p.jacobi_omega * (weights * dlam),
                )
                &&& sum(
                    multiple(difference(s.p_i, e.p_i), e.w_j),
                    multiple(difference(s.p_j, e.p_j), e.w_i),
                ) == (0real, 0real, 0real)
                &&& p.jacobi_omega == 1real && e.compliance == 0real && 0real <= e.rest
                    ==> has_length(difference(s.p_i, s.p_j), e.rest)
            }
        },
{
    let d = difference(e.p_i, e.p_j);
    law_length(m, d);
    lemma_same_root(len, m.length(d));
    lemma_positive(p.dt, p.dt);
    lemma_quotient(e.compliance, p.dt * p.dt);
    lemma_cancel(softness, e.compliance / (p.dt * p.dt), p.dt * p.dt);
    let weights = e.w_i + e.w_j;
    lemma_quotient(-(len - e.rest) - softness * e.lambda, weights + softness);
    lemma_spread(weights, softness, dlam);
    lemma_swap(dlam, weights + softness);
    lemma_spread(e.lambda, dlam, softness);
    lemma_unit(d, len);
    let g = (d.0 / len, d.1 / len, d.2 / len);
    let omega = p.jacobi_omega;
    law_corrections(m, g, omega, e.w_i, e.w_j, dlam);
    let s = (omega * e.w_i) * dlam;
    let t = (omega * e.w_j) * dlam;
    lemma_moved(e.p_i, e.p_j, g, len, s, t);
    lemma_two_weights(omega, e.w_i, e.w_j, dlam);
    lemma_balance(g, omega, e.w_i, e.w_j, dlam);
    lemma_along(e.p_i, d, g, len, limited(s, m.k.correction_cap));
    lemma_along(e.p_j, d, g, len, -limited(t, m.k.correction_cap));
    let r = m.relaxed(e, p).unwrap();
    if within_cap(m, omega, e.w_i, dlam) && within_cap(m, omega, e.w_j, dlam) && omega == 1real
        && e.compliance == 0real && 0real <= e.rest {
        lemma_spread(0real, 0real, p.dt * p.dt);
        lemma_cancel(softness, 0real, p.dt * p.dt);
        lemma_spread(0real, 0real, r.lambda);
        lemma_goal_length(difference(r.p_i, r.p_j), d, len, e.rest);
    }
}

/// The constraint with its ends exchanged.
pub open spec fn exchanged(e: EdgeInput<real, Vector>) -> EdgeInput<real, Vector> {
    EdgeInput { w_i: e.w_j, w_j: e.w_i, p_i: e.p_j, p_j: e.p_i, ..e }
}

proof fn lemma_turned_unit(x: real, len: real)
    requires
        len != 0real,
    ensures
        (-x) / len == (x / len) * (-1real),
{
    lemma_quotient(-x, len);
    lemma_quotient(x, len);
    lemma_negative(x / len, 1real);
    lemma_negative(x / len, len);
    lemma_cancel((-x) / len, (x / len) * (-1real), len);
}

/// To exchange the ends of a constraint exchanges where they go, and changes nothing else, on the device
/// and without it.
pub proof fn law_exchanged_ends(
    m: ArithModel<real, Vector>,
    e: EdgeInput<real, Vector>,
    p: XpbdCpuTimeStepParams<real, Vector>,
    inv_dt_sq: real,
    omega: real,
)
    requires
        exact(m),
    ensures
        match (m.solved(e, inv_dt_sq, omega), m.solved(exchanged(e), inv_dt_sq, omega)) {
            (Some(s), Some(t)) => t.p_i == s.p_j && t.p_j == s.p_i && t.dlam == s.dlam && t.lambda
                == s.lambda,
            (None, None) => true,
            _ => false,
        },
        match (m.relaxed(e, p), m.relaxed(exchanged(e), p)) {
            (Some(s), Some(t)) => t.p_i == s.p_j && t.p_j == s.p_i && t.lambda == s.lambda,
            (None, None) => true,
            _ => false,
        },
{
    let o = exchanged(e);
    let d = difference(e.p_i, e.p_j);
    let b = difference(o.p_i, o.p_j);
    let len = m.length(d);
    law_length(m, d);
    law_length(m, b);
    lemma_negative(d.0, d.0);
    lemma_negative(d.1, d.1);
    lemma_negative(d.2, d.2);
    lemma_negative(-d.0, d.0);
    lemma_negative(-d.1, d.1);
    lemma_negative(-d.2, d.2);
    lemma_negative(d.0, -d.0);
    lemma_negative(d.1, -d.1);
    lemma_negative(d.2, -d.2);
    assert(b == (-d.0, -d.1, -d.2));
    assert(product(b, b) == product(d, d));
    lemma_same_root(len, m.length(b));
    if m.k.tiny <= len {
        lemma_unit(d, len);
        lemma_turned_unit(d.0, len);
        lemma_turned_unit(d.1, len);
        lemma_turned_unit(d.2, len);
        let g = (d.0 / len, d.1 / len, d.2 / len);
        let h = (b.0 / len, b.1 / len, b.2 / len);
        assert(h == multiple(g, -1real));
        let dlam = m.delta_lambda(len, e.rest, e.w_i, e.w_j, e.compliance, inv_dt_sq, e.lambda);
        assert(dlam == m.delta_lambda(
            len,
            o.rest,
            o.w_i,
            o.w_j,
            o.compliance,
            inv_dt_sq,
            o.lambda,
        ));
        law_exchanged_corrections(m, g, omega, e.w_i, e.w_j, dlam);
        let softness = e.compliance / (p.dt * p.dt);
        let change = (-(len - e.rest) - softness * e.lambda) / ((e.w_i + e.w_j) + softness);
        law_exchanged_corrections(m, g, p.jacobi_omega, e.w_i, e.w_j, change);
    }
}

} // verus!
