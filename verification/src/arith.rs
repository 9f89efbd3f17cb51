//! The formulas of the solvers, over scalars and vectors that the library only carries.
//!
//! The operations on scalars `S` and vectors `P` are passed in as an [`Arith`]. An [`ArithModel`]
//! says what values they give; what a formula computes is stated for every model of the operations.

use vstd::prelude::*;

use crate::common::{cell_of, flat_packed, grabbed, is_grabbed, law_cell_of_in_grid};
use crate::gs::EdgeSolve;
use crate::types::{CollGridUniform, SimParams};
use crate::substep::{EdgeInput, EdgeOutput, PairInput, XpbdCpuTimeStepParams};

verus! {

/// The function `f` gives what `g` says.
pub open spec fn gives<A, B, F: Fn(A) -> B>(f: F, g: spec_fn(A) -> B) -> bool {
    forall|a: A, r: B| #[trigger] f.ensures((a,), r) ==> r == g(a)
}

/// The scalars and vectors that the formulas compare with.
#[derive(Clone, Copy)]
pub struct Constants<S, P> {
    pub zero: S,
    pub one: S,
    /// Lengths and sums of weights below this count as nothing.
    pub tiny: S,
    /// Squared distances up to this count as nothing.
    pub tiny_sq: S,
    /// Particles closer than this have no direction of their own.
    pub coincident: S,
    /// Pairs are local up to so many times the thickness at rest.
    pub local_reach: S,
    /// The least length of an edge, as a share of its rest length.
    pub compress_min: S,
    /// The longest correction of an end by one constraint.
    pub correction_cap: S,
    /// The longest way of a grabbed particle in one substep.
    pub grab_max_pull: S,
    pub max_speed: S,
    /// The largest displacement along an axis by the collisions of one substep.
    pub collision_clamp: S,
    pub origin: P,
    /// The unit vector upwards.
    pub up: P,
}

/// The operations on scalars and vectors.
pub struct Arith<
    S, P, Lt, Le, Eq, Plus, Minus, Times, Over, Min, Max, Neg, Sqrt, Exp, VPlus, VMinus,
    VTimes, VOver, VNeg, Dot, Height, AtHeight, Confine, Xyz, Parts, Floor,
> {
    pub k: Constants<S, P>,
    /// Less than.
    pub lt: Lt,
    /// Less than or equal.
    pub le: Le,
    /// Equal.
    pub eq: Eq,
    pub plus: Plus,
    pub minus: Minus,
    pub times: Times,
    pub over: Over,
    /// The smaller of two.
    pub min: Min,
    /// The larger of two.
    pub max: Max,
    pub neg: Neg,
    /// The square root.
    pub sqrt: Sqrt,
    /// The exponential.
    pub exp: Exp,
    pub v_plus: VPlus,
    pub v_minus: VMinus,
    /// A vector times a scalar.
    pub v_times: VTimes,
    /// A vector over a scalar.
    pub v_over: VOver,
    pub v_neg: VNeg,
    /// The dot product.
    pub dot: Dot,
    /// The height of a point.
    pub height: Height,
    /// A point moved to a height.
    pub at_height: AtHeight,
    /// A vector with each component limited in absolute value.
    pub confine: Confine,
    /// The vector of the first three of four scalars.
    pub xyz: Xyz,
    /// The components of a vector.
    pub parts: Parts,
    /// The largest whole number that is not above a scalar.
    pub floor: Floor,
}

/// What the operations give.
#[verifier::reject_recursive_types(S)]
#[verifier::reject_recursive_types(P)]
pub struct ArithModel<S, P> {
    pub k: Constants<S, P>,
    pub lt: spec_fn(S, S) -> bool,
    pub le: spec_fn(S, S) -> bool,
    pub eq: spec_fn(S, S) -> bool,
    pub plus: spec_fn(S, S) -> S,
    pub minus: spec_fn(S, S) -> S,
    pub times: spec_fn(S, S) -> S,
    pub over: spec_fn(S, S) -> S,
    pub min: spec_fn(S, S) -> S,
    pub max: spec_fn(S, S) -> S,
    pub neg: spec_fn(S) -> S,
    pub sqrt: spec_fn(S) -> S,
    pub exp: spec_fn(S) -> S,
    pub v_plus: spec_fn(P, P) -> P,
    pub v_minus: spec_fn(P, P) -> P,
    pub v_times: spec_fn(P, S) -> P,
    pub v_over: spec_fn(P, S) -> P,
    pub v_neg: spec_fn(P) -> P,
    pub dot: spec_fn(P, P) -> S,
    pub height: spec_fn(P) -> S,
    pub at_height: spec_fn(P, S) -> P,
    pub confine: spec_fn(P, S) -> P,
    pub xyz: spec_fn([S; 4]) -> P,
    pub parts: spec_fn(P) -> [S; 3],
    pub floor: spec_fn(S) -> i32,
}

impl<S, P> ArithModel<S, P> {
    pub open spec fn length(&self, v: P) -> S {
        (self.sqrt)((self.dot)(v, v))
    }

    /// `v`, shortened to length `cap` where it is longer.
    pub open spec fn shortened(&self, v: P, cap: S) -> P {
        let l = self.length(v);
        if (self.lt)(cap, l) && (self.lt)(self.k.zero, l) {
            (self.v_times)(v, (self.over)(cap, l))
        } else {
            v
        }
    }

    /// Where a grabbed particle goes: toward the target, not too far at once.
    pub open spec fn pulled(&self, x: P, target: P, stiffness: S) -> P {
        let share = if (self.lt)(stiffness, self.k.zero) {
            self.k.zero
        } else if (self.lt)(self.k.one, stiffness) {
            self.k.one
        } else {
            stiffness
        };
        let way = (self.v_times)((self.v_minus)(target, x), share);
        (self.v_plus)(x, self.shortened(way, self.k.grab_max_pull))
    }

    /// The velocity after gravity acted for a time `dt`, with its speed limited.
    pub open spec fn accelerated(&self, v: P, gravity: P, dt: S) -> P {
        let u = (self.v_plus)(v, (self.v_times)(gravity, dt));
        let speed = self.length(u);
        if (self.lt)(self.k.max_speed, speed) {
            (self.v_times)(u, (self.over)(self.k.max_speed, speed))
        } else {
            u
        }
    }

    /// The position and velocity that a particle is predicted to have.
    pub open spec fn predicted(
        &self,
        grabbed: bool,
        x: P,
        v: P,
        w: S,
        gravity: P,
        target: P,
        dt: S,
        stiffness: S,
    ) -> (P, P) {
        if grabbed {
            (self.pulled(x, target, stiffness), v)
        } else if (self.le)(w, self.k.zero) {
            (x, v)
        } else {
            let u = self.accelerated(v, gravity, dt);
            ((self.v_plus)(x, (self.v_times)(u, dt)), u)
        }
    }

    /// The change of the multiplier of a distance constraint. An edge that is compressed too far is
    /// pushed out to its least length, whatever its compliance.
    pub open spec fn delta_lambda(
        &self,
        len: S,
        rest: S,
        w_i: S,
        w_j: S,
        compliance: S,
        inv_dt_sq: S,
        lambda: S,
    ) -> S {
        let none = (self.lt)(len, self.k.tiny) || (self.le)(w_i, self.k.zero) && (self.le)(
            w_j,
            self.k.zero,
        );
        let least = (self.times)(rest, self.k.compress_min);
        let weights = (self.plus)(w_i, w_j);
        let softness = (self.times)(compliance, inv_dt_sq);
        let soft_weights = (self.plus)(weights, softness);
        if none {
            self.k.zero
        } else if (self.lt)(len, least) {
            if (self.lt)(weights, self.k.tiny) {
                self.k.zero
            } else {
                (self.over)((self.neg)((self.minus)(len, least)), weights)
            }
        } else if (self.lt)(soft_weights, self.k.tiny) {
            self.k.zero
        } else {
            (self.over)(
                (self.minus)((self.neg)((self.minus)(len, rest)), (self.times)(softness, lambda)),
                soft_weights,
            )
        }
    }

    /// The corrections of the two ends of a constraint along the unit vector `g`.
    pub open spec fn corrections(&self, g: P, omega: S, w_i: S, w_j: S, dlam: S) -> (P, P) {
        let along = (self.v_times)(g, omega);
        (
            self.shortened(
                (self.v_times)((self.v_times)(along, w_i), dlam),
                self.k.correction_cap,
            ),
            self.shortened(
                (self.v_neg)((self.v_times)((self.v_times)(along, w_j), dlam)),
                self.k.correction_cap,
            ),
        )
    }

    /// A constraint solved for two ends, or nothing where its multiplier does not change.
    pub open spec fn solved(
        &self,
        e: EdgeInput<S, P>,
        inv_dt_sq: S,
        omega: S,
    ) -> Option<EdgeSolve<S, P>> {
        let g = (self.v_minus)(e.p_i, e.p_j);
        let len = self.length(g);
        let dlam = self.delta_lambda(
            len,
            e.rest,
            e.w_i,
            e.w_j,
            e.compliance,
            inv_dt_sq,
            e.lambda,
        );
        if (self.eq)(dlam, self.k.zero) {
            None
        } else {
            let (d_i, d_j) = self.corrections((self.v_over)(g, len), omega, e.w_i, e.w_j, dlam);
            Some(
                EdgeSolve {
                    dlam,
                    lambda: (self.plus)(e.lambda, dlam),
                    p_i: (self.v_plus)(e.p_i, d_i),
                    p_j: (self.v_plus)(e.p_j, d_j),
                },
            )
        }
    }

    /// The least distance that two particles keep. Local pairs, which are close at rest, keep the
    /// distance they have there.
    pub open spec fn kept_distance(&self, thickness: S, rest_len: S, local: bool) -> S {
        if local {
            (self.min)(rest_len, thickness)
        } else {
            thickness
        }
    }

    /// Moves two particles apart along `d`, each by the share of its inverse mass.
    pub open spec fn pushed(&self, d: P, w_i: S, w_j: S) -> (P, P) {
        let inv_w = (self.over)(self.k.one, (self.max)((self.plus)(w_i, w_j), self.k.tiny));
        (
            (self.v_times)((self.v_times)((self.v_neg)(d), w_i), inv_w),
            (self.v_times)((self.v_times)(d, w_j), inv_w),
        )
    }

    /// The direction and length of a separation by `corr`: along the line between the particles, or
    /// along the one they have at rest where they coincide, or upwards where that is nothing too.
    pub open spec fn separation_way(
        &self,
        d: P,
        dist: S,
        rest_d: P,
        rest_len: S,
        corr: S,
    ) -> P {
        if (self.lt)(dist, self.k.coincident) {
            if (self.lt)(self.k.tiny, rest_len) {
                (self.v_times)(rest_d, (self.over)(corr, rest_len))
            } else {
                (self.at_height)(self.k.origin, corr)
            }
        } else {
            (self.v_times)(d, (self.over)(corr, dist))
        }
    }

    /// The displacements of two particles that come closer than they may, or nothing.
    pub open spec fn separated(
        &self,
        e: PairInput<S, P>,
        thickness: S,
        coll_scale: S,
    ) -> Option<(P, P)> {
        let d = (self.v_minus)(e.p_j, e.p_i);
        let dist2 = (self.dot)(d, d);
        let rest_d = (self.v_minus)(e.rest_j, e.rest_i);
        let rest_len = self.length(rest_d);
        let local = (self.lt)(rest_len, (self.times)(thickness, self.k.local_reach));
        let dist = if (self.lt)(self.k.tiny_sq, dist2) {
            (self.sqrt)(dist2)
        } else {
            self.k.zero
        };
        let corr = (self.times)(
            (self.minus)(self.kept_distance(thickness, rest_len, local), dist),
            coll_scale,
        );
        let off = (self.le)(coll_scale, self.k.zero) || (self.le)(e.w_i, self.k.zero) && (self.le)(
            e.w_j,
            self.k.zero,
        );
        if off || (self.lt)((self.times)(thickness, thickness), dist2) || local && (self.lt)(
            (self.times)(rest_len, rest_len),
            dist2,
        ) || (self.le)(corr, self.k.zero) {
            None
        } else {
            Some(self.pushed(self.separation_way(d, dist, rest_d, rest_len, corr), e.w_i, e.w_j))
        }
    }

    /// The position and velocity that a particle is predicted to have above a floor.
    pub open spec fn fallen(&self, x: P, v: P, p: XpbdCpuTimeStepParams<S, P>) -> (P, P) {
        let u = (self.v_plus)(v, (self.v_times)(p.gravity, p.dt));
        let slow = self.shortened(u, self.k.max_speed);
        let y = (self.v_plus)(x, (self.v_times)(slow, p.dt));
        (
            if (self.lt)((self.height)(y), p.floor_y) {
                (self.at_height)(y, p.floor_y)
            } else {
                y
            },
            slow,
        )
    }

    /// A point pulled toward the grab target.
    pub open spec fn attracted(&self, x: P, p: XpbdCpuTimeStepParams<S, P>) -> P {
        (self.v_plus)(x, (self.v_times)((self.v_minus)(p.grab_target, x), p.grab_stiffness))
    }

    /// A constraint solved for two ends, or nothing where they coincide or neither can move.
    pub open spec fn relaxed(
        &self,
        e: EdgeInput<S, P>,
        p: XpbdCpuTimeStepParams<S, P>,
    ) -> Option<EdgeOutput<S, P>> {
        let g = (self.v_minus)(e.p_i, e.p_j);
        let len = self.length(g);
        let softness = (self.over)(e.compliance, (self.times)(p.dt, p.dt));
        let weights = (self.plus)((self.plus)(e.w_i, e.w_j), softness);
        let dlam = (self.over)(
            (self.minus)(
                (self.neg)((self.minus)(len, e.rest)),
                (self.times)(softness, e.lambda),
            ),
            weights,
        );
        if (self.lt)(len, self.k.tiny) || (self.lt)(weights, self.k.tiny) {
            None
        } else {
            let (d_i, d_j) = self.corrections(
                (self.v_over)(g, len),
                p.jacobi_omega,
                e.w_i,
                e.w_j,
                dlam,
            );
            Some(
                EdgeOutput {
                    lambda: (self.plus)(e.lambda, dlam),
                    p_i: (self.v_plus)(e.p_i, d_i),
                    p_j: (self.v_plus)(e.p_j, d_j),
                },
            )
        }
    }

    /// A position displaced by what its collisions add up to, limited along each axis.
    pub open spec fn displaced(&self, x: P, sum: P) -> P {
        (self.v_plus)(x, (self.confine)(sum, self.k.collision_clamp))
    }

    /// The velocity of a particle that moved from `prev` to `x`, with drag.
    pub open spec fn velocity(&self, x: P, prev: P, inv_dt: S, drag: S, dt: S) -> P {
        let damp = (self.exp)((self.times)((self.neg)(drag), dt));
        (self.v_times)((self.v_times)((self.v_minus)(x, prev), inv_dt), damp)
    }

    /// The coordinates of the grid cell of a position: the position in cells from the origin of the
    /// grid, rounded down along each axis.
    pub open spec fn grid_coords(&self, grid: CollGridUniform<S>, p: P) -> [i32; 3] {
        let q = self.in_cells(grid, p);
        [(self.floor)(q[0]), (self.floor)(q[1]), (self.floor)(q[2])]
    }

    /// A position in cells from the origin of the grid.
    pub open spec fn in_cells(&self, grid: CollGridUniform<S>, p: P) -> [S; 3] {
        (self.parts)(
            (self.v_times)((self.v_minus)(p, (self.xyz)(grid.grid_origin_pad)), grid.inv_cell),
        )
    }

    /// The grid coordinates of the positions.
    pub open spec fn all_grid_coords(
        &self,
        grid: CollGridUniform<S>,
        positions: Seq<P>,
    ) -> Seq<[i32; 3]> {
        Seq::new(positions.len(), |i: int| self.grid_coords(grid, positions[i]))
    }

    /// The unit vector along `n`, upwards where `n` is too short.
    pub open spec fn direction(&self, n: P) -> P {
        let l = self.length(n);
        if (self.lt)(self.k.tiny, l) {
            (self.v_over)(n, l)
        } else {
            self.k.up
        }
    }
}

impl<
    S: Copy,
    P: Copy,
    Lt: Fn(S, S) -> bool,
    Le: Fn(S, S) -> bool,
    Eq: Fn(S, S) -> bool,
    Plus: Fn(S, S) -> S,
    Minus: Fn(S, S) -> S,
    Times: Fn(S, S) -> S,
    Over: Fn(S, S) -> S,
    Min: Fn(S, S) -> S,
    Max: Fn(S, S) -> S,
    Neg: Fn(S) -> S,
    Sqrt: Fn(S) -> S,
    Exp: Fn(S) -> S,
    VPlus: Fn(P, P) -> P,
    VMinus: Fn(P, P) -> P,
    VTimes: Fn(P, S) -> P,
    VOver: Fn(P, S) -> P,
    VNeg: Fn(P) -> P,
    Dot: Fn(P, P) -> S,
    Height: Fn(P) -> S,
    AtHeight: Fn(P, S) -> P,
    Confine: Fn(P, S) -> P,
    Xyz: Fn([S; 4]) -> P,
    Parts: Fn(P) -> [S; 3],
    Floor: Fn(S) -> i32,
> Arith<
    S, P, Lt, Le, Eq, Plus, Minus, Times, Over, Min, Max, Neg, Sqrt, Exp, VPlus, VMinus,
    VTimes, VOver, VNeg, Dot, Height, AtHeight, Confine, Xyz, Parts, Floor,
> {
    /// The operations accept all arguments.
    pub open spec fn total(&self) -> bool {
        &&& forall|a: S, b: S| #[trigger] self.lt.requires((a, b))
        &&& forall|a: S, b: S| #[trigger] self.le.requires((a, b))
        &&& forall|a: S, b: S| #[trigger] self.eq.requires((a, b))
        &&& forall|a: S, b: S| #[trigger] self.plus.requires((a, b))
        &&& forall|a: S, b: S| #[trigger] self.minus.requires((a, b))
        &&& forall|a: S, b: S| #[trigger] self.times.requires((a, b))
        &&& forall|a: S, b: S| #[trigger] self.over.requires((a, b))
        &&& forall|a: S, b: S| #[trigger] self.min.requires((a, b))
        &&& forall|a: S, b: S| #[trigger] self.max.requires((a, b))
        &&& forall|a: S| #[trigger] self.neg.requires((a,))
        &&& forall|a: S| #[trigger] self.sqrt.requires((a,))
        &&& forall|a: S| #[trigger] self.exp.requires((a,))
        &&& forall|a: P, b: P| #[trigger] self.v_plus.requires((a, b))
        &&& forall|a: P, b: P| #[trigger] self.v_minus.requires((a, b))
        &&& forall|a: P, b: S| #[trigger] self.v_times.requires((a, b))
        &&& forall|a: P, b: S| #[trigger] self.v_over.requires((a, b))
        &&& forall|a: P| #[trigger] self.v_neg.requires((a,))
        &&& forall|a: P, b: P| #[trigger] self.dot.requires((a, b))
        &&& forall|a: P| #[trigger] self.height.requires((a,))
        &&& forall|a: P, b: S| #[trigger] self.at_height.requires((a, b))
        &&& forall|a: P, b: S| #[trigger] self.confine.requires((a, b))
        &&& forall|a: [S; 4]| #[trigger] self.xyz.requires((a,))
        &&& forall|a: P| #[trigger] self.parts.requires((a,))
        &&& forall|a: S| #[trigger] self.floor.requires((a,))
    }

    /// The operations give what the model says.
    pub open spec fn computes(&self, m: ArithModel<S, P>) -> bool {
        &&& m.k == self.k
        &&& forall|a: S, b: S, r: bool| #[trigger]
            self.lt.ensures((a, b), r) ==> r == (m.lt)(a, b)
        &&& forall|a: S, b: S, r: bool| #[trigger]
            self.le.ensures((a, b), r) ==> r == (m.le)(a, b)
        &&& forall|a: S, b: S, r: bool| #[trigger]
            self.eq.ensures((a, b), r) ==> r == (m.eq)(a, b)
        &&& forall|a: S, b: S, r: S| #[trigger]
            self.plus.ensures((a, b), r) ==> r == (m.plus)(a, b)
        &&& forall|a: S, b: S, r: S| #[trigger]
            self.minus.ensures((a, b), r) ==> r == (m.minus)(a, b)
        &&& forall|a: S, b: S, r: S| #[trigger]
            self.times.ensures((a, b), r) ==> r == (m.times)(a, b)
        &&& forall|a: S, b: S, r: S| #[trigger]
            self.over.ensures((a, b), r) ==> r == (m.over)(a, b)
        &&& forall|a: S, b: S, r: S| #[trigger]
            self.min.ensures((a, b), r) ==> r == (m.min)(a, b)
        &&& forall|a: S, b: S, r: S| #[trigger]
            self.max.ensures((a, b), r) ==> r == (m.max)(a, b)
        &&& forall|a: S, r: S| #[trigger]
            self.neg.ensures((a,), r) ==> r == (m.neg)(a)
        &&& forall|a: S, r: S| #[trigger]
            self.sqrt.ensures((a,), r) ==> r == (m.sqrt)(a)
        &&& forall|a: S, r: S| #[trigger] self.exp.ensures((a,), r) ==> r == (m.exp)(a)
        &&& forall|a: P, b: P, r: P| #[trigger]
            self.v_plus.ensures((a, b), r) ==> r == (m.v_plus)(a, b)
        &&& forall|a: P, b: P, r: P| #[trigger]
            self.v_minus.ensures((a, b), r) ==> r == (m.v_minus)(a, b)
        &&& forall|a: P, b: S, r: P| #[trigger]
            self.v_times.ensures((a, b), r) ==> r == (m.v_times)(a, b)
        &&& forall|a: P, b: S, r: P| #[trigger]
            self.v_over.ensures((a, b), r) ==> r == (m.v_over)(a, b)
        &&& forall|a: P, r: P| #[trigger]
            self.v_neg.ensures((a,), r) ==> r == (m.v_neg)(a)
        &&& forall|a: P, b: P, r: S| #[trigger]
            self.dot.ensures((a, b), r) ==> r == (m.dot)(a, b)
        &&& forall|a: P, r: S| #[trigger] self.height.ensures((a,), r) ==> r == (m.height)(a)
        &&& forall|a: P, b: S, r: P| #[trigger]
            self.at_height.ensures((a, b), r) ==> r == (m.at_height)(a, b)
        &&& forall|a: P, b: S, r: P| #[trigger]
            self.confine.ensures((a, b), r) ==> r == (m.confine)(a, b)
        &&& forall|a: [S; 4], r: P| #[trigger] self.xyz.ensures((a,), r) ==> r == (m.xyz)(a)
        &&& forall|a: P, r: [S; 3]| #[trigger] self.parts.ensures((a,), r) ==> r == (m.parts)(a)
        &&& forall|a: S, r: i32| #[trigger] self.floor.ensures((a,), r) ==> r == (m.floor)(a)
    }

    /// The length of a vector.
    pub fn length(&self, v: P) -> (r: S)
        requires
            self.total(),
        ensures
            forall|m: ArithModel<S, P>| #[trigger] self.computes(m) ==> r == m.length(v),
    {
        (self.sqrt)((self.dot)(v, v))
    }

    /// `v`, shortened to length `cap` where it is longer.
    pub fn shorten(&self, v: P, cap: S) -> (r: P)
        requires
            self.total(),
        ensures
            forall|m: ArithModel<S, P>| #[trigger] self.computes(m) ==> r == m.shortened(v, cap),
    {
        let l = self.length(v);
        if (self.lt)(cap, l) && (self.lt)(self.k.zero, l) {
            (self.v_times)(v, (self.over)(cap, l))
        } else {
            v
        }
    }

    /// Limits the correction of one end of a constraint.
    pub fn clamp_delta_vec(&self, dx: P) -> (r: P)
        requires
            self.total(),
        ensures
            forall|m: ArithModel<S, P>| #[trigger]
                self.computes(m) ==> r == m.shortened(dx, self.k.correction_cap),
    {
        self.shorten(dx, self.k.correction_cap)
    }

    /// Where a grabbed particle goes.
    pub fn pull(&self, x: P, target: P, stiffness: S) -> (r: P)
        requires
            self.total(),
        ensures
            forall|m: ArithModel<S, P>| #[trigger]
                self.computes(m) ==> r == m.pulled(x, target, stiffness),
    {
        let share = if (self.lt)(stiffness, self.k.zero) {
            self.k.zero
        } else if (self.lt)(self.k.one, stiffness) {
            self.k.one
        } else {
            stiffness
        };
        let way = (self.v_times)((self.v_minus)(target, x), share);
        let step = self.shorten(way, self.k.grab_max_pull);
        (self.v_plus)(x, step)
    }

    /// The velocity after gravity acted, with its speed limited.
    pub fn accelerate(&self, v: P, gravity: P, dt: S) -> (r: P)
        requires
            self.total(),
        ensures
            forall|m: ArithModel<S, P>| #[trigger]
                self.computes(m) ==> r == m.accelerated(v, gravity, dt),
    {
        let u = (self.v_plus)(v, (self.v_times)(gravity, dt));
        let speed = self.length(u);
        if (self.lt)(self.k.max_speed, speed) {
            (self.v_times)(u, (self.over)(self.k.max_speed, speed))
        } else {
            u
        }
    }

    /// Predicts particle `i`. A grabbed one follows its target and ignores gravity; a pinned one
    /// stays.
    pub fn predict_position(
        &self,
        params: &SimParams<S>,
        i: u32,
        sim: P,
        vel: P,
        inv_mass: S,
    ) -> (r: (P, P))
        requires
            self.total(),
        ensures
            forall|m: ArithModel<S, P>| #[trigger] self.computes(m) ==> r == m.predicted(
                grabbed(*params, i),
                sim,
                vel,
                inv_mass,
                (m.xyz)(params.gravity),
                (m.xyz)(params.grab_target),
                params.dt,
                params.grab_stiffness,
            ),
    {
        if is_grabbed(params, i) {
            let target = (self.xyz)(params.grab_target);
            return (self.pull(sim, target, params.grab_stiffness), vel);
        }
        if (self.le)(inv_mass, self.k.zero) {
            return (sim, vel);
        }
        let gravity = (self.xyz)(params.gravity);
        let v = self.accelerate(vel, gravity, params.dt);
        ((self.v_plus)(sim, (self.v_times)(v, params.dt)), v)
    }

    /// The change of the multiplier of a distance constraint.
    pub fn xpbd_distance_delta_lambda(
        &self,
        len: S,
        rest: S,
        w_i: S,
        w_j: S,
        compliance: S,
        inv_dt_sq: S,
        lambda: S,
    ) -> (r: S)
        requires
            self.total(),
        ensures
            forall|m: ArithModel<S, P>| #[trigger] self.computes(m) ==> r == m.delta_lambda(
                len,
                rest,
                w_i,
                w_j,
                compliance,
                inv_dt_sq,
                lambda,
            ),
    {
        if (self.lt)(len, self.k.tiny) {
            return self.k.zero;
        }
        if (self.le)(w_i, self.k.zero) && (self.le)(w_j, self.k.zero) {
            return self.k.zero;
        }
        let least = (self.times)(rest, self.k.compress_min);
        let weights = (self.plus)(w_i, w_j);
        if (self.lt)(len, least) {
            if (self.lt)(weights, self.k.tiny) {
                return self.k.zero;
            }
            return (self.over)((self.neg)((self.minus)(len, least)), weights);
        }
        let softness = (self.times)(compliance, inv_dt_sq);
        let soft_weights = (self.plus)(weights, softness);
        if (self.lt)(soft_weights, self.k.tiny) {
            return self.k.zero;
        }
        let c = (self.neg)((self.minus)(len, rest));
        (self.over)((self.minus)(c, (self.times)(softness, lambda)), soft_weights)
    }

    /// The corrections of the two ends of a constraint along the unit vector `g`.
    fn correct(&self, g: P, omega: S, w_i: S, w_j: S, dlam: S) -> (r: (P, P))
        requires
            self.total(),
        ensures
            forall|m: ArithModel<S, P>| #[trigger]
                self.computes(m) ==> r == m.corrections(g, omega, w_i, w_j, dlam),
    {
        let along = (self.v_times)(g, omega);
        let d_i = (self.v_times)((self.v_times)(along, w_i), dlam);
        let d_j = (self.v_neg)((self.v_times)((self.v_times)(along, w_j), dlam));
        (self.clamp_delta_vec(d_i), self.clamp_delta_vec(d_j))
    }

    /// Solves one constraint, or gives nothing where its multiplier does not change.
    pub fn solve_edge(
        &self,
        e: EdgeInput<S, P>,
        inv_dt_sq: S,
        omega: S,
    ) -> (r: Option<EdgeSolve<S, P>>)
        requires
            self.total(),
        ensures
            forall|m: ArithModel<S, P>| #[trigger]
                self.computes(m) ==> r == m.solved(e, inv_dt_sq, omega),
    {
        let g = (self.v_minus)(e.p_i, e.p_j);
        let len = self.length(g);
        let dlam = self.xpbd_distance_delta_lambda(
            len,
            e.rest,
            e.w_i,
            e.w_j,
            e.compliance,
            inv_dt_sq,
            e.lambda,
        );
        if (self.eq)(dlam, self.k.zero) {
            return None;
        }
        let (d_i, d_j) = self.correct((self.v_over)(g, len), omega, e.w_i, e.w_j, dlam);
        Some(
            EdgeSolve {
                dlam,
                lambda: (self.plus)(e.lambda, dlam),
                p_i: (self.v_plus)(e.p_i, d_i),
                p_j: (self.v_plus)(e.p_j, d_j),
            },
        )
    }

    /// Moves two particles apart along `d`, each by the share of its inverse mass.
    fn push(&self, d: P, w_i: S, w_j: S) -> (r: (P, P))
        requires
            self.total(),
        ensures
            forall|m: ArithModel<S, P>| #[trigger] self.computes(m) ==> r == m.pushed(d, w_i, w_j),
    {
        let inv_w = (self.over)(self.k.one, (self.max)((self.plus)(w_i, w_j), self.k.tiny));
        let di = (self.v_times)((self.v_times)((self.v_neg)(d), w_i), inv_w);
        let dj = (self.v_times)((self.v_times)(d, w_j), inv_w);
        (di, dj)
    }

    /// Whether two particles come closer than they may, and their displacements. Local pairs only
    /// keep the distance they have at rest, all others the thickness.
    pub fn self_collision_separation(
        &self,
        thickness: S,
        coll_scale: S,
        p_i: P,
        p_j: P,
        rest_i: P,
        rest_j: P,
        w_i: S,
        w_j: S,
    ) -> (r: (bool, P, P))
        requires
            self.total(),
        ensures
            forall|m: ArithModel<S, P>| #[trigger]
                self.computes(m) ==> match m.separated(
                    PairInput { p_i, p_j, rest_i, rest_j, w_i, w_j },
                    thickness,
                    coll_scale,
                ) {
                    None => r == (false, self.k.origin, self.k.origin),
                    Some((di, dj)) => r == (true, di, dj),
                },
    {
        let miss = (false, self.k.origin, self.k.origin);
        if (self.le)(coll_scale, self.k.zero) {
            return miss;
        }
        if (self.le)(w_i, self.k.zero) && (self.le)(w_j, self.k.zero) {
            return miss;
        }
        let d = (self.v_minus)(p_j, p_i);
        let dist2 = (self.dot)(d, d);
        if (self.lt)((self.times)(thickness, thickness), dist2) {
            return miss;
        }
        let rest_d = (self.v_minus)(rest_j, rest_i);
        let rest_len = self.length(rest_d);
        let local = (self.lt)(rest_len, (self.times)(thickness, self.k.local_reach));
        if local && (self.lt)((self.times)(rest_len, rest_len), dist2) {
            return miss;
        }
        let least = if local {
            (self.min)(rest_len, thickness)
        } else {
            thickness
        };
        let dist = if (self.lt)(self.k.tiny_sq, dist2) {
            (self.sqrt)(dist2)
        } else {
            self.k.zero
        };
        let corr = (self.times)((self.minus)(least, dist), coll_scale);
        if (self.le)(corr, self.k.zero) {
            return miss;
        }
        let way = if (self.lt)(dist, self.k.coincident) {
            if (self.lt)(self.k.tiny, rest_len) {
                (self.v_times)(rest_d, (self.over)(corr, rest_len))
            } else {
                (self.at_height)(self.k.origin, corr)
            }
        } else {
            (self.v_times)(d, (self.over)(corr, dist))
        };
        let (di, dj) = self.push(way, w_i, w_j);
        (true, di, dj)
    }

    /// Predicts a particle above a floor.
    pub fn fall(&self, x: P, v: P, p: &XpbdCpuTimeStepParams<S, P>) -> (r: (P, P))
        requires
            self.total(),
        ensures
            forall|m: ArithModel<S, P>| #[trigger] self.computes(m) ==> r == m.fallen(x, v, *p),
    {
        let u = (self.v_plus)(v, (self.v_times)(p.gravity, p.dt));
        let slow = self.shorten(u, self.k.max_speed);
        let y = (self.v_plus)(x, (self.v_times)(slow, p.dt));
        if (self.lt)((self.height)(y), p.floor_y) {
            ((self.at_height)(y, p.floor_y), slow)
        } else {
            (y, slow)
        }
    }

    /// Pulls a point toward the grab target.
    pub fn attract(&self, x: P, p: &XpbdCpuTimeStepParams<S, P>) -> (r: P)
        requires
            self.total(),
        ensures
            forall|m: ArithModel<S, P>| #[trigger] self.computes(m) ==> r == m.attracted(x, *p),
    {
        let way = (self.v_minus)(p.grab_target, x);
        (self.v_plus)(x, (self.v_times)(way, p.grab_stiffness))
    }

    /// Solves one constraint, or gives nothing where the ends coincide or neither can move.
    pub fn relax(&self, e: EdgeInput<S, P>, p: &XpbdCpuTimeStepParams<S, P>) -> (r: Option<
        EdgeOutput<S, P>,
    >)
        requires
            self.total(),
        ensures
            forall|m: ArithModel<S, P>| #[trigger] self.computes(m) ==> r == m.relaxed(e, *p),
    {
        let g = (self.v_minus)(e.p_i, e.p_j);
        let len = self.length(g);
        if (self.lt)(len, self.k.tiny) {
            return None;
        }
        let softness = (self.over)(e.compliance, (self.times)(p.dt, p.dt));
        let weights = (self.plus)((self.plus)(e.w_i, e.w_j), softness);
        if (self.lt)(weights, self.k.tiny) {
            return None;
        }
        let c = (self.neg)((self.minus)(len, e.rest));
        let dlam = (self.over)((self.minus)(c, (self.times)(softness, e.lambda)), weights);
        let (d_i, d_j) = self.correct((self.v_over)(g, len), p.jacobi_omega, e.w_i, e.w_j, dlam);
        Some(
            EdgeOutput {
                lambda: (self.plus)(e.lambda, dlam),
                p_i: (self.v_plus)(e.p_i, d_i),
                p_j: (self.v_plus)(e.p_j, d_j),
            },
        )
    }

    /// The displacements of two particles that come closer than they may, or nothing.
    pub fn separate(&self, e: PairInput<S, P>, thickness: S, coll_scale: S) -> (r: Option<(P, P)>)
        requires
            self.total(),
        ensures
            forall|m: ArithModel<S, P>| #[trigger]
                self.computes(m) ==> r == m.separated(e, thickness, coll_scale),
    {
        let (hit, di, dj) = self.self_collision_separation(
            thickness,
            coll_scale,
            e.p_i,
            e.p_j,
            e.rest_i,
            e.rest_j,
            e.w_i,
            e.w_j,
        );
        if hit {
            Some((di, dj))
        } else {
            None
        }
    }

    /// A position displaced by what its collisions add up to, limited along each axis.
    pub fn displace(&self, x: P, sum: P) -> (r: P)
        requires
            self.total(),
        ensures
            forall|m: ArithModel<S, P>| #[trigger] self.computes(m) ==> r == m.displaced(x, sum),
    {
        (self.v_plus)(x, (self.confine)(sum, self.k.collision_clamp))
    }

    /// The velocity of a particle that moved from `prev` to `x`, with drag.
    pub fn velocity(&self, x: P, prev: P, inv_dt: S, drag: S, dt: S) -> (r: P)
        requires
            self.total(),
        ensures
            forall|m: ArithModel<S, P>| #[trigger] 
                self.computes(m) ==> r == m.velocity(x, prev, inv_dt, drag, dt),
    {
        let damp = (self.exp)((self.times)((self.neg)(drag), dt));
        (self.v_times)((self.v_times)((self.v_minus)(x, prev), inv_dt), damp)
    }

    /// The coordinates of the grid cell of a position.
    pub fn grid_coords(&self, grid: &CollGridUniform<S>, p: P) -> (r: [i32; 3])
        requires
            self.total(),
        ensures
            forall|m: ArithModel<S, P>| #[trigger] self.computes(m) ==> r == m.grid_coords(*grid, p),
    {
        let origin = (self.xyz)(grid.grid_origin_pad);
        let q = (self.parts)((self.v_times)((self.v_minus)(p, origin), grid.inv_cell));
        let r = [(self.floor)(q[0]), (self.floor)(q[1]), (self.floor)(q[2])];
        proof {
            assert forall|m: ArithModel<S, P>| #[trigger] self.computes(m) implies r
                == m.grid_coords(*grid, p) by {
                assert(r@ =~= m.grid_coords(*grid, p)@);
            }
        }
        r
    }

    /// The cell of a position.
    pub fn collision_flat_packed(&self, grid: &CollGridUniform<S>, p: P) -> (r: u32)
        requires
            self.total(),
            grid.wf(),
        ensures
            r < grid.num_cells,
            forall|m: ArithModel<S, P>| #[trigger]
                self.computes(m) ==> r == cell_of(*grid, m.grid_coords(*grid, p)),
    {
        let q = self.grid_coords(grid, p);
        proof {
            law_cell_of_in_grid(*grid, q);
        }
        flat_packed(grid, q)
    }

    /// The unit vector along `n`, upwards where `n` is too short.
    pub fn direction(&self, n: P) -> (r: P)
        requires
            self.total(),
        ensures
            forall|m: ArithModel<S, P>| #[trigger] self.computes(m) ==> r == m.direction(n),
    {
        let l = self.length(n);
        if (self.lt)(self.k.tiny, l) {
            (self.v_over)(n, l)
        } else {
            self.k.up
        }
    }
}

/// Where neither end can move, the multiplier of a constraint does not change.
pub proof fn law_pinned_edges_rest<S, P>(
    m: ArithModel<S, P>,
    len: S,
    rest: S,
    w_i: S,
    w_j: S,
    compliance: S,
    inv_dt_sq: S,
    lambda: S,
)
    requires
        (m.le)(w_i, m.k.zero),
        (m.le)(w_j, m.k.zero),
    ensures
        m.delta_lambda(len, rest, w_i, w_j, compliance, inv_dt_sq, lambda) == m.k.zero,
{
}

/// An edge below its least length is pushed out regardless of its compliance, the time step and its
/// multiplier.
pub proof fn law_compressed_edges_are_hard<S, P>(
    m: ArithModel<S, P>,
    len: S,
    rest: S,
    w_i: S,
    w_j: S,
    soft: (S, S, S),
    other: (S, S, S),
)
    requires
        (m.lt)(len, (m.times)(rest, m.k.compress_min)),
    ensures
        m.delta_lambda(len, rest, w_i, w_j, soft.0, soft.1, soft.2) == m.delta_lambda(
            len,
            rest,
            w_i,
            w_j,
            other.0,
            other.1,
            other.2,
        ),
{
}

/// The change of the multiplier of a constraint does not depend on which of its ends is the first.
pub proof fn law_ends_are_alike<S, P>(
    m: ArithModel<S, P>,
    len: S,
    rest: S,
    w_i: S,
    w_j: S,
    compliance: S,
    inv_dt_sq: S,
    lambda: S,
)
    requires
        (m.plus)(w_i, w_j) == (m.plus)(w_j, w_i),
    ensures
        m.delta_lambda(len, rest, w_i, w_j, compliance, inv_dt_sq, lambda) == m.delta_lambda(
            len,
            rest,
            w_j,
            w_i,
            compliance,
            inv_dt_sq,
            lambda,
        ),
{
}

/// The multiplier of an edge below its least length grows, so that the edge is pushed out, where the
/// operations have signs as numbers have them.
pub proof fn law_compressed_edges_expand<S, P>(
    m: ArithModel<S, P>,
    len: S,
    rest: S,
    w_i: S,
    w_j: S,
    compliance: S,
    inv_dt_sq: S,
    lambda: S,
)
    requires
        forall|a: S, b: S| #[trigger]
            (m.lt)(a, b) ==> (m.lt)(m.k.zero, (m.neg)((m.minus)(a, b))),
        forall|a: S, b: S|
            (m.lt)(m.k.zero, a) && !(m.lt)(b, m.k.tiny) ==> (m.lt)(
                m.k.zero,
                #[trigger] (m.over)(a, b),
            ),
        !(m.lt)(len, m.k.tiny),
        !((m.le)(w_i, m.k.zero) && (m.le)(w_j, m.k.zero)),
        !(m.lt)((m.plus)(w_i, w_j), m.k.tiny),
        (m.lt)(len, (m.times)(rest, m.k.compress_min)),
    ensures
        (m.lt)(
            m.k.zero,
            m.delta_lambda(len, rest, w_i, w_j, compliance, inv_dt_sq, lambda),
        ),
{
}

/// Lengths and quotients of positive scalars behave as those of numbers: a multiple of a vector is
/// as many times as long, and a quotient times its divisor is the dividend.
pub open spec fn scales_lengths<S, P>(m: ArithModel<S, P>) -> bool {
    &&& forall|a: S| !#[trigger] (m.lt)(a, a)
    &&& forall|a: S, b: S, c: S| #[trigger]
        (m.lt)(a, b) && #[trigger] (m.lt)(b, c) ==> (m.lt)(a, c)
    &&& forall|a: S, b: S|
        (m.lt)(m.k.zero, a) && (m.lt)(m.k.zero, b) ==> {
            &&& (m.lt)(m.k.zero, #[trigger] (m.over)(a, b))
            &&& (m.times)((m.over)(a, b), b) == a
        }
    &&& forall|v: P, a: S|
        (m.lt)(m.k.zero, a) ==> m.length(#[trigger] (m.v_times)(v, a)) == (m.times)(a, m.length(v))
}

/// A vector up to the cap is kept. A longer one becomes a positive multiple of itself whose length
/// is the cap. So no result is longer than the cap.
pub proof fn law_cap_limits_length<S, P>(m: ArithModel<S, P>, v: P, cap: S)
    requires
        scales_lengths(m),
        (m.lt)(m.k.zero, cap),
    ensures
        !(m.lt)(cap, m.length(v)) ==> m.shortened(v, cap) == v,
        (m.lt)(cap, m.length(v)) ==> {
            let share = (m.over)(cap, m.length(v));
            &&& (m.lt)(m.k.zero, share)
            &&& m.shortened(v, cap) == (m.v_times)(v, share)
            &&& m.length(m.shortened(v, cap)) == cap
        },
        !(m.lt)(cap, m.length(m.shortened(v, cap))),
{
}

/// No end of a constraint is corrected by more than the cap.
pub proof fn law_corrections_are_capped<S, P>(
    m: ArithModel<S, P>,
    g: P,
    omega: S,
    w_i: S,
    w_j: S,
    dlam: S,
)
    requires
        scales_lengths(m),
        (m.lt)(m.k.zero, m.k.correction_cap),
    ensures
        ({
            let (d_i, d_j) = m.corrections(g, omega, w_i, w_j, dlam);
            !(m.lt)(m.k.correction_cap, m.length(d_i)) && !(m.lt)(
                m.k.correction_cap,
                m.length(d_j),
            )
        }),
{
    let along = (m.v_times)(g, omega);
    let cap = m.k.correction_cap;
    law_cap_limits_length(m, (m.v_times)((m.v_times)(along, w_i), dlam), cap);
    law_cap_limits_length(m, (m.v_neg)((m.v_times)((m.v_times)(along, w_j), dlam)), cap);
}

/// A pair that is close at rest is left alone while it is farther apart than there.
pub proof fn law_local_pairs_are_not_inflated<S, P>(
    m: ArithModel<S, P>,
    e: PairInput<S, P>,
    thickness: S,
    coll_scale: S,
)
    requires
        ({
            let d = (m.v_minus)(e.p_j, e.p_i);
            let rest_len = m.length((m.v_minus)(e.rest_j, e.rest_i));
            &&& (m.lt)(rest_len, (m.times)(thickness, m.k.local_reach))
            &&& (m.lt)((m.times)(rest_len, rest_len), (m.dot)(d, d))
        }),
    ensures
        m.separated(e, thickness, coll_scale) is None,
{
}

/// A strength of zero or less disables collisions, and so does that neither particle can move.
pub proof fn law_collisions_can_be_off<S, P>(
    m: ArithModel<S, P>,
    e: PairInput<S, P>,
    thickness: S,
    coll_scale: S,
)
    requires
        (m.le)(coll_scale, m.k.zero) || (m.le)(e.w_i, m.k.zero) && (m.le)(e.w_j, m.k.zero),
    ensures
        m.separated(e, thickness, coll_scale) is None,
{
}

/// A grabbed particle keeps its velocity, and neither gravity nor its mass moves it.
pub proof fn law_grab_ignores_gravity<S, P>(
    m: ArithModel<S, P>,
    x: P,
    v: P,
    a: (S, P),
    b: (S, P),
    target: P,
    dt: S,
    stiffness: S,
)
    ensures
        m.predicted(true, x, v, a.0, a.1, target, dt, stiffness) == m.predicted(
            true,
            x,
            v,
            b.0,
            b.1,
            target,
            dt,
            stiffness,
        ),
        m.predicted(true, x, v, a.0, a.1, target, dt, stiffness).1 == v,
{
}

} // verus!
