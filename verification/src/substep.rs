//! The substeps of the solver, one particle and one constraint after the other.
//!
//! Scalars `S` and vectors `P` are only carried; what is computed with them is passed in as
//! [`CpuOps`]. A [`CpuModel`] says what values the operations give, and the contracts hold for every
//! model of the operations.

use vstd::prelude::*;

use crate::cloth_compute::SUBSTEPS;
use crate::common::{as_i32, reinterpret_i32};
use crate::mesh_prep::neighbors::filled;

verus! {

/// The parameters of a substep.
#[derive(Clone, Copy)]
pub struct XpbdCpuTimeStepParams<S, P> {
    pub dt: S,
    pub inv_dt: S,
    pub jacobi_omega: S,
    pub inner_iterations: u32,
    pub gravity: P,
    pub floor_y: S,
    pub grab_idx: i32,
    pub grab_active: bool,
    pub grab_target: P,
    pub grab_stiffness: S,
    pub linear_drag_per_sec: S,
}

/// What a distance constraint is solved from.
#[derive(Clone, Copy)]
pub struct EdgeInput<S, P> {
    pub w_i: S,
    pub w_j: S,
    pub rest: S,
    pub compliance: S,
    pub p_i: P,
    pub p_j: P,
    pub lambda: S,
}

/// The multiplier of a solved constraint, and where its ends go.
#[derive(Clone, Copy)]
pub struct EdgeOutput<S, P> {
    pub lambda: S,
    pub p_i: P,
    pub p_j: P,
}

/// What the collision of two particles is decided from.
#[derive(Clone, Copy)]
pub struct PairInput<S, P> {
    pub p_i: P,
    pub p_j: P,
    pub rest_i: P,
    pub rest_j: P,
    pub w_i: S,
    pub w_j: S,
}

/// The operations on scalars and vectors.
pub struct CpuOps<S, P, B, H, A, G, E, C, L, K, V> {
    pub zero: S,
    pub origin: P,
    /// Whether an inverse mass is positive.
    pub positive: B,
    /// Whether an inverse mass is zero or less. An inverse mass that is no number is neither.
    pub held: H,
    /// The next position and velocity of a particle, from its present ones.
    pub predict: A,
    /// Pulls the position of the grabbed particle to its target.
    pub pull: G,
    /// Solves a constraint, or gives nothing where there is nothing to correct.
    pub solve: E,
    /// The displacements of two particles that collide, or nothing where they do not.
    pub separate: C,
    pub plus: L,
    /// A position displaced by what its collisions add up to.
    pub displace: K,
    /// The velocity out of the new position and the one before.
    pub velocity: V,
}

/// What the operations give.
#[verifier::reject_recursive_types(S)]
#[verifier::reject_recursive_types(P)]
pub struct CpuModel<S, P> {
    pub positive: spec_fn(S) -> bool,
    pub held: spec_fn(S) -> bool,
    pub predict: spec_fn(P, P) -> (P, P),
    pub pull: spec_fn(P) -> P,
    pub solve: spec_fn(EdgeInput<S, P>) -> Option<EdgeOutput<S, P>>,
    pub separate: spec_fn(PairInput<S, P>) -> Option<(P, P)>,
    pub plus: spec_fn(P, P) -> P,
    pub displace: spec_fn(P, P) -> P,
    pub velocity: spec_fn(P, P) -> P,
}

impl<
    S,
    P,
    B: Fn(S) -> bool,
    H: Fn(S) -> bool,
    A: Fn(P, P) -> (P, P),
    G: Fn(P) -> P,
    E: Fn(EdgeInput<S, P>) -> Option<EdgeOutput<S, P>>,
    C: Fn(PairInput<S, P>) -> Option<(P, P)>,
    L: Fn(P, P) -> P,
    K: Fn(P, P) -> P,
    V: Fn(P, P) -> P,
> CpuOps<S, P, B, H, A, G, E, C, L, K, V> {
    /// The operations accept all arguments.
    pub open spec fn total(&self) -> bool {
        &&& forall|w: S| #[trigger] self.positive.requires((w,))
        &&& forall|w: S| #[trigger] self.held.requires((w,))
        &&& forall|x: P, v: P| #[trigger] self.predict.requires((x, v))
        &&& forall|x: P| #[trigger] self.pull.requires((x,))
        &&& forall|e: EdgeInput<S, P>| #[trigger] self.solve.requires((e,))
        &&& forall|e: PairInput<S, P>| #[trigger] self.separate.requires((e,))
        &&& forall|x: P, y: P| #[trigger] self.plus.requires((x, y))
        &&& forall|x: P, y: P| #[trigger] self.displace.requires((x, y))
        &&& forall|x: P, y: P| #[trigger] self.velocity.requires((x, y))
    }

    /// The operations give what the model says.
    pub open spec fn computes(&self, m: CpuModel<S, P>) -> bool {
        &&& forall|w: S, r: bool| #[trigger]
            self.positive.ensures((w,), r) ==> r == (m.positive)(w)
        &&& forall|w: S, r: bool| #[trigger]
            self.held.ensures((w,), r) ==> r == (m.held)(w)
        &&& forall|x: P, v: P, r: (P, P)| #[trigger]
            self.predict.ensures((x, v), r) ==> r == (m.predict)(x, v)
        &&& forall|x: P, r: P| #[trigger] self.pull.ensures((x,), r) ==> r == (m.pull)(x)
        &&& forall|e: EdgeInput<S, P>, r: Option<EdgeOutput<S, P>>| #[trigger]
            self.solve.ensures((e,), r) ==> r == (m.solve)(e)
        &&& forall|e: PairInput<S, P>, r: Option<(P, P)>| #[trigger]
            self.separate.ensures((e,), r) ==> r == (m.separate)(e)
        &&& forall|x: P, y: P, r: P| #[trigger]
            self.plus.ensures((x, y), r) ==> r == (m.plus)(x, y)
        &&& forall|x: P, y: P, r: P| #[trigger]
            self.displace.ensures((x, y), r) ==> r == (m.displace)(x, y)
        &&& forall|x: P, y: P, r: P| #[trigger]
            self.velocity.ensures((x, y), r) ==> r == (m.velocity)(x, y)
    }
}

/// Particle `i` is grabbed.
pub open spec fn held<S, P>(p: XpbdCpuTimeStepParams<S, P>, i: int) -> bool {
    p.grab_active && as_i32(i) == p.grab_idx
}

/// Where particle `i` is predicted to be, and its velocity.
pub open spec fn predicted<S, P>(
    m: CpuModel<S, P>,
    p: XpbdCpuTimeStepParams<S, P>,
    w: S,
    i: int,
    x: P,
    v: P,
) -> (P, P) {
    if (m.held)(w) {
        (x, v)
    } else {
        let (y, u) = (m.predict)(x, v);
        (
            if held(p, i) {
                (m.pull)(y)
            } else {
                y
            },
            u,
        )
    }
}

/// The positions and multipliers after constraint `e` is solved.
pub open spec fn edge_step<S, P>(
    m: CpuModel<S, P>,
    t: ConstraintTables<S>,
    state: (Seq<P>, Seq<S>),
    e: int,
) -> (Seq<P>, Seq<S>) {
    let (jac, lambda) = state;
    let i = t.i[e] as int;
    let j = t.j[e] as int;
    let (w_i, w_j) = (t.inv_mass[i], t.inv_mass[j]);
    let input = EdgeInput {
        w_i,
        w_j,
        rest: t.rest_len[e],
        compliance: t.compliance[e],
        p_i: jac[i],
        p_j: jac[j],
        lambda: lambda[e],
    };
    if (m.held)(w_i) && (m.held)(w_j) {
        state
    } else {
        match (m.solve)(input) {
            None => state,
            Some(s) => {
                let first = if (m.positive)(w_i) {
                    jac.update(i, s.p_i)
                } else {
                    jac
                };
                let both = if (m.positive)(w_j) {
                    first.update(j, s.p_j)
                } else {
                    first
                };
                (both, lambda.update(e, s.lambda))
            },
        }
    }
}

/// The inverse masses of the particles, and the constraints between them.
pub struct ConstraintTables<S> {
    pub inv_mass: Seq<S>,
    pub i: Seq<u32>,
    pub j: Seq<u32>,
    pub rest_len: Seq<S>,
    pub compliance: Seq<S>,
}

impl<S> ConstraintTables<S> {
    /// The tables of the constraints are of one length, and the ends are among `n` particles.
    pub open spec fn wf(&self, n: int) -> bool {
        &&& self.inv_mass.len() == n
        &&& self.j.len() == self.i.len()
        &&& self.rest_len.len() == self.i.len()
        &&& self.compliance.len() == self.i.len()
        &&& forall|e: int| 0 <= e < self.i.len() ==> #[trigger] self.i[e] < n
        &&& forall|e: int| 0 <= e < self.j.len() ==> #[trigger] self.j[e] < n
    }
}

/// The positions and multipliers after the first `e` constraints, one after the other.
pub open spec fn sweep<S, P>(
    m: CpuModel<S, P>,
    t: ConstraintTables<S>,
    jac: Seq<P>,
    zero: S,
    e: int,
) -> (Seq<P>, Seq<S>)
    decreases e,
{
    if e <= 0 {
        (jac, Seq::new(t.i.len(), |k: int| zero))
    } else {
        edge_step(m, t, sweep(m, t, jac, zero, e - 1), e - 1)
    }
}

/// The positions after `k` iterations. Each one starts with all multipliers at zero.
pub open spec fn iterated<S, P>(
    m: CpuModel<S, P>,
    t: ConstraintTables<S>,
    jac: Seq<P>,
    zero: S,
    k: int,
) -> Seq<P>
    decreases k,
{
    if k <= 0 {
        jac
    } else {
        sweep(m, t, iterated(m, t, jac, zero, k - 1), zero, t.i.len() as int).0
    }
}

/// The predicted positions.
pub open spec fn predicted_positions<S, P>(
    m: CpuModel<S, P>,
    p: XpbdCpuTimeStepParams<S, P>,
    inv_mass: Seq<S>,
    sim: Seq<P>,
    vel: Seq<P>,
) -> Seq<P> {
    Seq::new(sim.len(), |i: int| predicted(m, p, inv_mass[i], i, sim[i], vel[i]).0)
}

/// The predicted velocities.
pub open spec fn predicted_velocities<S, P>(
    m: CpuModel<S, P>,
    p: XpbdCpuTimeStepParams<S, P>,
    inv_mass: Seq<S>,
    sim: Seq<P>,
    vel: Seq<P>,
) -> Seq<P> {
    Seq::new(sim.len(), |i: int| predicted(m, p, inv_mass[i], i, sim[i], vel[i]).1)
}

/// The positions once the constraints of a substep are solved.
pub open spec fn integrated<S, P>(
    m: CpuModel<S, P>,
    p: XpbdCpuTimeStepParams<S, P>,
    t: ConstraintTables<S>,
    zero: S,
    sim: Seq<P>,
    vel: Seq<P>,
) -> Seq<P> {
    iterated(
        m,
        t,
        predicted_positions(m, p, t.inv_mass, sim, vel),
        zero,
        p.inner_iterations as int,
    )
}

/// The displacements after the collision of particles `i` and `j`.
pub open spec fn pair_step<S, P>(
    m: CpuModel<S, P>,
    inv_mass: Seq<S>,
    rest: Seq<P>,
    sim: Seq<P>,
    accum: Seq<P>,
    i: int,
    j: int,
) -> Seq<P> {
    let (free_i, free_j) = ((m.positive)(inv_mass[i]), (m.positive)(inv_mass[j]));
    let input = PairInput {
        p_i: sim[i],
        p_j: sim[j],
        rest_i: rest[i],
        rest_j: rest[j],
        w_i: inv_mass[i],
        w_j: inv_mass[j],
    };
    if (m.held)(inv_mass[i]) && (m.held)(inv_mass[j]) {
        accum
    } else {
        match (m.separate)(input) {
            None => accum,
            Some((di, dj)) => {
                let first = if free_i {
                    accum.update(i, (m.plus)(accum[i], di))
                } else {
                    accum
                };
                if free_j {
                    first.update(j, (m.plus)(first[j], dj))
                } else {
                    first
                }
            },
        }
    }
}

/// The displacements after the collisions of particle `i` with those from `i + 1` up to `j`.
pub open spec fn row_accum<S, P>(
    m: CpuModel<S, P>,
    inv_mass: Seq<S>,
    rest: Seq<P>,
    sim: Seq<P>,
    accum: Seq<P>,
    i: int,
    j: int,
) -> Seq<P>
    decreases j - i,
{
    if j <= i + 1 {
        accum
    } else {
        pair_step(
            m,
            inv_mass,
            rest,
            sim,
            row_accum(m, inv_mass, rest, sim, accum, i, j - 1),
            i,
            j - 1,
        )
    }
}

/// The displacements after all pairs whose first particle is below `i`, each pair once.
pub open spec fn all_accum<S, P>(
    m: CpuModel<S, P>,
    inv_mass: Seq<S>,
    rest: Seq<P>,
    sim: Seq<P>,
    origin: P,
    i: int,
) -> Seq<P>
    decreases i,
{
    if i <= 0 {
        Seq::new(sim.len(), |k: int| origin)
    } else {
        row_accum(
            m,
            inv_mass,
            rest,
            sim,
            all_accum(m, inv_mass, rest, sim, origin, i - 1),
            i - 1,
            sim.len() as int,
        )
    }
}

/// The positions once collisions are resolved.
pub open spec fn resolved<S, P>(
    m: CpuModel<S, P>,
    inv_mass: Seq<S>,
    rest: Seq<P>,
    sim: Seq<P>,
    origin: P,
) -> Seq<P> {
    let accum = all_accum(m, inv_mass, rest, sim, origin, sim.len() as int);
    Seq::new(
        sim.len(),
        |i: int|
            if (m.held)(inv_mass[i]) {
                sim[i]
            } else {
                (m.displace)(sim[i], accum[i])
            },
    )
}

/// The velocities out of the positions before and after a substep.
pub open spec fn new_velocities<S, P>(
    m: CpuModel<S, P>,
    inv_mass: Seq<S>,
    sim: Seq<P>,
    prev: Seq<P>,
    vel: Seq<P>,
) -> Seq<P> {
    Seq::new(
        vel.len(),
        |i: int|
            if (m.held)(inv_mass[i]) {
                vel[i]
            } else {
                (m.velocity)(sim[i], prev[i])
            },
    )
}

/// The positions and velocities after a substep without collisions.
pub open spec fn free_substep<S, P>(
    m: CpuModel<S, P>,
    p: XpbdCpuTimeStepParams<S, P>,
    t: ConstraintTables<S>,
    zero: S,
    state: (Seq<P>, Seq<P>),
) -> (Seq<P>, Seq<P>) {
    let (sim, vel) = state;
    let moved = integrated(m, p, t, zero, sim, vel);
    let v = predicted_velocities(m, p, t.inv_mass, sim, vel);
    (moved, new_velocities(m, t.inv_mass, moved, sim, v))
}

/// The positions and velocities after a substep that resolves collisions.
pub open spec fn colliding_substep<S, P>(
    m: CpuModel<S, P>,
    p: XpbdCpuTimeStepParams<S, P>,
    t: ConstraintTables<S>,
    zero: S,
    rest: Seq<P>,
    origin: P,
    state: (Seq<P>, Seq<P>),
) -> (Seq<P>, Seq<P>) {
    let (sim, vel) = state;
    let moved = resolved(
        m,
        t.inv_mass,
        rest,
        integrated(m, p, t, zero, sim, vel),
        origin,
    );
    let v = predicted_velocities(m, p, t.inv_mass, sim, vel);
    (moved, new_velocities(m, t.inv_mass, moved, sim, v))
}

/// The positions and velocities after `k` substeps without collisions.
pub open spec fn free_substeps<S, P>(
    m: CpuModel<S, P>,
    p: XpbdCpuTimeStepParams<S, P>,
    t: ConstraintTables<S>,
    zero: S,
    state: (Seq<P>, Seq<P>),
    k: int,
) -> (Seq<P>, Seq<P>)
    decreases k,
{
    if k <= 0 {
        state
    } else {
        free_substep(m, p, t, zero, free_substeps(m, p, t, zero, state, k - 1))
    }
}

/// The positions and velocities after `k` substeps that resolve collisions.
pub open spec fn colliding_substeps<S, P>(
    m: CpuModel<S, P>,
    p: XpbdCpuTimeStepParams<S, P>,
    t: ConstraintTables<S>,
    zero: S,
    rest: Seq<P>,
    origin: P,
    state: (Seq<P>, Seq<P>),
    k: int,
) -> (Seq<P>, Seq<P>)
    decreases k,
{
    if k <= 0 {
        state
    } else {
        colliding_substep(
            m,
            p,
            t,
            zero,
            rest,
            origin,
            colliding_substeps(m, p, t, zero, rest, origin, state, k - 1),
        )
    }
}

/// The tables behind slices.
pub open spec fn tables<S>(
    inv_mass: &[S],
    constraint_i: &[u32],
    constraint_j: &[u32],
    constraint_rest_len: &[S],
    constraint_compliance: &[S],
) -> ConstraintTables<S> {
    ConstraintTables {
        inv_mass: inv_mass@,
        i: constraint_i@,
        j: constraint_j@,
        rest_len: constraint_rest_len@,
        compliance: constraint_compliance@,
    }
}

/// Moves colliding particles apart. All pairs are looked at in the positions before, and each
/// particle is displaced once, by what its collisions add up to.
pub fn resolve_collisions<
    S: Copy,
    P: Copy,
    B: Fn(S) -> bool,
    H: Fn(S) -> bool,
    A: Fn(P, P) -> (P, P),
    G: Fn(P) -> P,
    E: Fn(EdgeInput<S, P>) -> Option<EdgeOutput<S, P>>,
    C: Fn(PairInput<S, P>) -> Option<(P, P)>,
    L: Fn(P, P) -> P,
    K: Fn(P, P) -> P,
    V: Fn(P, P) -> P,
>(
    sim_pos: &mut [P],
    inv_mass: &[S],
    rest_pos: &[P],
    ops: &CpuOps<S, P, B, H, A, G, E, C, L, K, V>,
)
    requires
        ops.total(),
        inv_mass@.len() == old(sim_pos)@.len(),
        rest_pos@.len() == old(sim_pos)@.len(),
    ensures
        final(sim_pos)@.len() == old(sim_pos)@.len(),
        forall|m: CpuModel<S, P>| #[trigger]
            ops.computes(m) ==> final(sim_pos)@ == resolved(
                m,
                inv_mass@,
                rest_pos@,
                old(sim_pos)@,
                ops.origin,
            ),
{
    let n: usize = sim_pos.len();
    let ghost sim = sim_pos@;
    let mut accum: Vec<P> = filled(ops.origin, n);
    let mut i: usize = 0;
    while i < n
        invariant
            i <= n,
            n == sim.len(),
            sim_pos@ == sim,
            ops.total(),
            inv_mass@.len() == n,
            rest_pos@.len() == n,
            accum@.len() == n,
            forall|m: CpuModel<S, P>| #[trigger]
                ops.computes(m) ==> accum@ == all_accum(
                    m,
                    inv_mass@,
                    rest_pos@,
                    sim,
                    ops.origin,
                    i as int,
                ),
        decreases n - i,
    {
        let ghost start = accum@;
        let free_i = (ops.positive)(inv_mass[i]);
        let held_i = (ops.held)(inv_mass[i]);
        let mut j: usize = i + 1;
        while j < n
            invariant
                i < j <= n,
                n == sim.len(),
                sim_pos@ == sim,
                ops.total(),
                inv_mass@.len() == n,
                rest_pos@.len() == n,
                accum@.len() == n,
                start.len() == n,
                forall|m: CpuModel<S, P>| #[trigger]
                    ops.computes(m) ==> free_i == (m.positive)(inv_mass@[i as int]) && held_i == (
                    m.held)(inv_mass@[i as int]),
                forall|m: CpuModel<S, P>| #[trigger]
                    ops.computes(m) ==> accum@ == row_accum(
                        m,
                        inv_mass@,
                        rest_pos@,
                        sim,
                        start,
                        i as int,
                        j as int,
                    ),
            decreases n - j,
        {
            let ghost before = accum@;
            let free_j = (ops.positive)(inv_mass[j]);
            let held_j = (ops.held)(inv_mass[j]);
            if !(held_i && held_j) {
                let input = PairInput {
                    p_i: sim_pos[i],
                    p_j: sim_pos[j],
                    rest_i: rest_pos[i],
                    rest_j: rest_pos[j],
                    w_i: inv_mass[i],
                    w_j: inv_mass[j],
                };
                match (ops.separate)(input) {
                    None => {},
                    Some((di, dj)) => {
                        if free_i {
                            let a = (ops.plus)(accum[i], di);
                            accum[i] = a;
                        }
                        if free_j {
                            let a = (ops.plus)(accum[j], dj);
                            accum[j] = a;
                        }
                    },
                }
            }
            proof {
                assert forall|m: CpuModel<S, P>| #[trigger] ops.computes(m) implies accum@
                    == row_accum(m, inv_mass@, rest_pos@, sim, start, i as int, j + 1) by {
                    assert(before == row_accum(
                        m,
                        inv_mass@,
                        rest_pos@,
                        sim,
                        start,
                        i as int,
                        j as int,
                    ));
                    assert(accum@ =~= pair_step(
                        m,
                        inv_mass@,
                        rest_pos@,
                        sim,
                        before,
                        i as int,
                        j as int,
                    ));
                }
            }
            j = j + 1;
        }
        i = i + 1;
    }
    let mut i: usize = 0;
    while i < n
        invariant
            i <= n,
            n == sim.len(),
            sim_pos@.len() == n,
            ops.total(),
            inv_mass@.len() == n,
            accum@.len() == n,
            forall|k: int| i <= k < n ==> #[trigger] sim_pos@[k] == sim[k],
            forall|m: CpuModel<S, P>| #[trigger]
                ops.computes(m) ==> accum@ == all_accum(
                    m,
                    inv_mass@,
                    rest_pos@,
                    sim,
                    ops.origin,
                    n as int,
                ),
            forall|m: CpuModel<S, P>| #[trigger]
                ops.computes(m) ==> forall|k: int|
                    0 <= k < i ==> #[trigger] sim_pos@[k] == resolved(
                        m,
                        inv_mass@,
                        rest_pos@,
                        sim,
                        ops.origin,
                    )[k],
        decreases n - i,
    {
        assert(sim_pos@[i as int] == sim[i as int]);
        if !(ops.held)(inv_mass[i]) {
            let x = (ops.displace)(sim_pos[i], accum[i]);
            sim_pos[i] = x;
        }
        i = i + 1;
    }
    proof {
        assert forall|m: CpuModel<S, P>| #[trigger] ops.computes(m) implies sim_pos@ == resolved(
            m,
            inv_mass@,
            rest_pos@,
            sim,
            ops.origin,
        ) by {
            assert(sim_pos@ =~= resolved(m, inv_mass@, rest_pos@, sim, ops.origin));
        }
    }
}

/// Predicts the particles, keeping their positions in `prev_pos`.
fn predict_all<
    S: Copy,
    P: Copy,
    B: Fn(S) -> bool,
    H: Fn(S) -> bool,
    A: Fn(P, P) -> (P, P),
    G: Fn(P) -> P,
    E: Fn(EdgeInput<S, P>) -> Option<EdgeOutput<S, P>>,
    C: Fn(PairInput<S, P>) -> Option<(P, P)>,
    L: Fn(P, P) -> P,
    K: Fn(P, P) -> P,
    V: Fn(P, P) -> P,
>(
    sim_pos: &mut [P],
    prev_pos: &mut [P],
    vel: &mut [P],
    inv_mass: &[S],
    p: &XpbdCpuTimeStepParams<S, P>,
    ops: &CpuOps<S, P, B, H, A, G, E, C, L, K, V>,
)
    requires
        ops.total(),
        old(sim_pos)@.len() <= u32::MAX,
        old(prev_pos)@.len() == old(sim_pos)@.len(),
        old(vel)@.len() == old(sim_pos)@.len(),
        inv_mass@.len() == old(sim_pos)@.len(),
    ensures
        final(prev_pos)@ == old(sim_pos)@,
        final(sim_pos)@.len() == old(sim_pos)@.len(),
        final(vel)@.len() == old(vel)@.len(),
        forall|m: CpuModel<S, P>| #[trigger]
            ops.computes(m) ==> {
                &&& final(sim_pos)@ == predicted_positions(
                    m,
                    *p,
                    inv_mass@,
                    old(sim_pos)@,
                    old(vel)@,
                )
                &&& final(vel)@ == predicted_velocities(
                    m,
                    *p,
                    inv_mass@,
                    old(sim_pos)@,
                    old(vel)@,
                )
            },
{
    let n: usize = sim_pos.len();
    let ghost sim = sim_pos@;
    let ghost v0 = vel@;
    let mut i: usize = 0;
    while i < n
        invariant
            i <= n,
            n == sim.len(),
            n <= u32::MAX,
            v0.len() == n,
            sim_pos@.len() == n,
            prev_pos@.len() == n,
            vel@.len() == n,
            inv_mass@.len() == n,
            ops.total(),
            forall|k: int| 0 <= k < i ==> #[trigger] prev_pos@[k] == sim[k],
            forall|k: int| i <= k < n ==> #[trigger] sim_pos@[k] == sim[k],
            forall|k: int| i <= k < n ==> #[trigger] vel@[k] == v0[k],
            forall|m: CpuModel<S, P>| #[trigger]
                ops.computes(m) ==> forall|k: int|
                    0 <= k < i ==> (#[trigger] sim_pos@[k], vel@[k]) == predicted(
                        m,
                        *p,
                        inv_mass@[k],
                        k,
                        sim[k],
                        v0[k],
                    ),
        decreases n - i,
    {
        let x = sim_pos[i];
        assert(x == sim[i as int] && vel@[i as int] == v0[i as int]);
        prev_pos[i] = x;
        if !(ops.held)(inv_mass[i]) {
            let (y, u) = (ops.predict)(x, vel[i]);
            let y2 = if p.grab_active && reinterpret_i32(i as u32) == p.grab_idx {
                (ops.pull)(y)
            } else {
                y
            };
            sim_pos[i] = y2;
            vel[i] = u;
        }
        i = i + 1;
    }
    proof {
        assert(prev_pos@ =~= sim);
        assert forall|m: CpuModel<S, P>| #[trigger] ops.computes(m) implies {
            &&& sim_pos@ == predicted_positions(m, *p, inv_mass@, sim, v0)
            &&& vel@ == predicted_velocities(m, *p, inv_mass@, sim, v0)
        } by {
            assert forall|k: int| 0 <= k < n implies vel@[k] == predicted_velocities(
                m,
                *p,
                inv_mass@,
                sim,
                v0,
            )[k] by {
                assert((sim_pos@[k], vel@[k]) == predicted(
                    m,
                    *p,
                    inv_mass@[k],
                    k,
                    sim[k],
                    v0[k],
                ));
            }
            assert(sim_pos@ =~= predicted_positions(m, *p, inv_mass@, sim, v0));
            assert(vel@ =~= predicted_velocities(m, *p, inv_mass@, sim, v0));
        }
    }
}

fn copy_slice<P: Copy>(to: &mut [P], from: &[P])
    requires
        old(to)@.len() == from@.len(),
    ensures
        final(to)@ == from@,
{
    let mut i: usize = 0;
    while i < from.len()
        invariant
            i <= from@.len(),
            to@.len() == from@.len(),
            forall|k: int| 0 <= k < i ==> #[trigger] to@[k] == from@[k],
        decreases from@.len() - i,
    {
        to[i] = from[i];
        i = i + 1;
    }
    assert(to@ =~= from@);
}

/// One iteration over the constraints, with all multipliers at zero first.
fn sweep_all<
    S: Copy,
    P: Copy,
    B: Fn(S) -> bool,
    H: Fn(S) -> bool,
    A: Fn(P, P) -> (P, P),
    G: Fn(P) -> P,
    E: Fn(EdgeInput<S, P>) -> Option<EdgeOutput<S, P>>,
    C: Fn(PairInput<S, P>) -> Option<(P, P)>,
    L: Fn(P, P) -> P,
    K: Fn(P, P) -> P,
    V: Fn(P, P) -> P,
>(
    jac_work: &mut [P],
    inv_mass: &[S],
    constraint_i: &[u32],
    constraint_j: &[u32],
    constraint_rest_len: &[S],
    constraint_compliance: &[S],
    ops: &CpuOps<S, P, B, H, A, G, E, C, L, K, V>,
)
    requires
        ops.total(),
        tables(
            inv_mass,
            constraint_i,
            constraint_j,
            constraint_rest_len,
            constraint_compliance,
        ).wf(old(jac_work)@.len() as int),
    ensures
        final(jac_work)@.len() == old(jac_work)@.len(),
        forall|m: CpuModel<S, P>| #[trigger]
            ops.computes(m) ==> final(jac_work)@ == sweep(
                m,
                tables(
                    inv_mass,
                    constraint_i,
                    constraint_j,
                    constraint_rest_len,
                    constraint_compliance,
                ),
                old(jac_work)@,
                ops.zero,
                constraint_i@.len() as int,
            ).0,
{
    let ghost t = tables(
        inv_mass,
        constraint_i,
        constraint_j,
        constraint_rest_len,
        constraint_compliance,
    );
    let ghost jac0 = jac_work@;
    let count: usize = constraint_i.len();
    let mut lambda: Vec<S> = filled(ops.zero, count);
    let mut e: usize = 0;
    while e < count
        invariant
            e <= count,
            count == constraint_i@.len(),
            t == tables(
                inv_mass,
                constraint_i,
                constraint_j,
                constraint_rest_len,
                constraint_compliance,
            ),
            t.wf(jac_work@.len() as int),
            jac_work@.len() == jac0.len(),
            lambda@.len() == count,
            ops.total(),
            forall|m: CpuModel<S, P>| #[trigger]
                ops.computes(m) ==> (jac_work@, lambda@) == sweep(m, t, jac0, ops.zero, e as int),
        decreases count - e,
    {
        assert(t.i[e as int] < jac_work@.len() && t.j[e as int] < jac_work@.len());
        let ghost before = (jac_work@, lambda@);
        let i: usize = constraint_i[e] as usize;
        let j: usize = constraint_j[e] as usize;
        let w_i = inv_mass[i];
        let w_j = inv_mass[j];
        let free_i = (ops.positive)(w_i);
        let free_j = (ops.positive)(w_j);
        let held_i = (ops.held)(w_i);
        let held_j = (ops.held)(w_j);
        if !(held_i && held_j) {
            let input = EdgeInput {
                w_i,
                w_j,
                rest: constraint_rest_len[e],
                compliance: constraint_compliance[e],
                p_i: jac_work[i],
                p_j: jac_work[j],
                lambda: lambda[e],
            };
            match (ops.solve)(input) {
                None => {},
                Some(s) => {
                    lambda[e] = s.lambda;
                    if free_i {
                        jac_work[i] = s.p_i;
                    }
                    if free_j {
                        jac_work[j] = s.p_j;
                    }
                },
            }
        }
        proof {
            assert forall|m: CpuModel<S, P>| #[trigger] ops.computes(m) implies (
                jac_work@,
                lambda@,
            ) == sweep(m, t, jac0, ops.zero, e + 1) by {
                assert(before == sweep(m, t, jac0, ops.zero, e as int));
                let after = edge_step(m, t, before, e as int);
                assert(jac_work@ =~= after.0);
                assert(lambda@ =~= after.1);
            }
        }
        e = e + 1;
    }
    proof {
        assert forall|m: CpuModel<S, P>| #[trigger] ops.computes(m) implies jac_work@ == sweep(
            m,
            t,
            jac0,
            ops.zero,
            count as int,
        ).0 by {
            assert((jac_work@, lambda@) == sweep(m, t, jac0, ops.zero, count as int));
        }
    }
}

/// Predicts the particles and solves the constraints.
pub fn integrate<
    S: Copy,
    P: Copy,
    B: Fn(S) -> bool,
    H: Fn(S) -> bool,
    A: Fn(P, P) -> (P, P),
    G: Fn(P) -> P,
    E: Fn(EdgeInput<S, P>) -> Option<EdgeOutput<S, P>>,
    C: Fn(PairInput<S, P>) -> Option<(P, P)>,
    L: Fn(P, P) -> P,
    K: Fn(P, P) -> P,
    V: Fn(P, P) -> P,
>(
    sim_pos: &mut [P],
    prev_pos: &mut [P],
    vel: &mut [P],
    jac_work: &mut [P],
    inv_mass: &[S],
    constraint_i: &[u32],
    constraint_j: &[u32],
    constraint_rest_len: &[S],
    constraint_compliance: &[S],
    p: &XpbdCpuTimeStepParams<S, P>,
    ops: &CpuOps<S, P, B, H, A, G, E, C, L, K, V>,
)
    requires
        ops.total(),
        old(sim_pos)@.len() <= u32::MAX,
        old(prev_pos)@.len() == old(sim_pos)@.len(),
        old(vel)@.len() == old(sim_pos)@.len(),
        old(jac_work)@.len() == old(sim_pos)@.len(),
        tables(
            inv_mass,
            constraint_i,
            constraint_j,
            constraint_rest_len,
            constraint_compliance,
        ).wf(old(sim_pos)@.len() as int),
    ensures
        final(prev_pos)@ == old(sim_pos)@,
        final(jac_work)@ == final(sim_pos)@,
        final(sim_pos)@.len() == old(sim_pos)@.len(),
        final(vel)@.len() == old(vel)@.len(),
        forall|m: CpuModel<S, P>| #[trigger]
            ops.computes(m) ==> {
                &&& final(sim_pos)@ == integrated(
                    m,
                    *p,
                    tables(
                        inv_mass,
                        constraint_i,
                        constraint_j,
                        constraint_rest_len,
                        constraint_compliance,
                    ),
                    ops.zero,
                    old(sim_pos)@,
                    old(vel)@,
                )
                &&& final(vel)@ == predicted_velocities(
                    m,
                    *p,
                    inv_mass@,
                    old(sim_pos)@,
                    old(vel)@,
                )
            },
{
    let ghost t = tables(
        inv_mass,
        constraint_i,
        constraint_j,
        constraint_rest_len,
        constraint_compliance,
    );
    let ghost sim = sim_pos@;
    let ghost v0 = vel@;
    predict_all(sim_pos, prev_pos, vel, inv_mass, p, ops);
    copy_slice(jac_work, sim_pos);
    let ghost seed = jac_work@;
    let mut k: u32 = 0;
    while k < p.inner_iterations
        invariant
            k <= p.inner_iterations,
            ops.total(),
            t == tables(
                inv_mass,
                constraint_i,
                constraint_j,
                constraint_rest_len,
                constraint_compliance,
            ),
            t.wf(jac_work@.len() as int),
            jac_work@.len() == seed.len(),
            forall|m: CpuModel<S, P>| #[trigger]
                ops.computes(m) ==> jac_work@ == iterated(m, t, seed, ops.zero, k as int),
        decreases p.inner_iterations - k,
    {
        sweep_all(
            jac_work,
            inv_mass,
            constraint_i,
            constraint_j,
            constraint_rest_len,
            constraint_compliance,
            ops,
        );
        k = k + 1;
    }
    copy_slice(sim_pos, jac_work);
}

/// The velocities of the particles that are not held, out of their positions before and after.
pub fn update_velocities<
    S: Copy,
    P: Copy,
    B: Fn(S) -> bool,
    H: Fn(S) -> bool,
    A: Fn(P, P) -> (P, P),
    G: Fn(P) -> P,
    E: Fn(EdgeInput<S, P>) -> Option<EdgeOutput<S, P>>,
    C: Fn(PairInput<S, P>) -> Option<(P, P)>,
    L: Fn(P, P) -> P,
    K: Fn(P, P) -> P,
    V: Fn(P, P) -> P,
>(
    sim_pos: &[P],
    prev_pos: &[P],
    vel: &mut [P],
    inv_mass: &[S],
    ops: &CpuOps<S, P, B, H, A, G, E, C, L, K, V>,
)
    requires
        ops.total(),
        prev_pos@.len() == sim_pos@.len(),
        old(vel)@.len() == sim_pos@.len(),
        inv_mass@.len() == sim_pos@.len(),
    ensures
        final(vel)@.len() == old(vel)@.len(),
        forall|m: CpuModel<S, P>| #[trigger]
            ops.computes(m) ==> final(vel)@ == new_velocities(
                m,
                inv_mass@,
                sim_pos@,
                prev_pos@,
                old(vel)@,
            ),
{
    let n: usize = sim_pos.len();
    let ghost v0 = vel@;
    let mut i: usize = 0;
    while i < n
        invariant
            i <= n,
            n == sim_pos@.len(),
            prev_pos@.len() == n,
            inv_mass@.len() == n,
            vel@.len() == n,
            v0.len() == n,
            ops.total(),
            forall|k: int| i <= k < n ==> #[trigger] vel@[k] == v0[k],
            forall|m: CpuModel<S, P>| #[trigger]
                ops.computes(m) ==> forall|k: int|
                    0 <= k < i ==> #[trigger] vel@[k] == new_velocities(
                        m,
                        inv_mass@,
                        sim_pos@,
                        prev_pos@,
                        v0,
                    )[k],
        decreases n - i,
    {
        if !(ops.held)(inv_mass[i]) {
            let v = (ops.velocity)(sim_pos[i], prev_pos[i]);
            vel[i] = v;
        }
        i = i + 1;
    }
    proof {
        assert forall|m: CpuModel<S, P>| #[trigger] ops.computes(m) implies vel@ == new_velocities(
            m,
            inv_mass@,
            sim_pos@,
            prev_pos@,
            v0,
        ) by {
            assert(vel@ =~= new_velocities(m, inv_mass@, sim_pos@, prev_pos@, v0));
        }
    }
}

/// One substep without collisions.
pub fn substep_without_collisions<
    S: Copy,
    P: Copy,
    B: Fn(S) -> bool,
    H: Fn(S) -> bool,
    A: Fn(P, P) -> (P, P),
    G: Fn(P) -> P,
    E: Fn(EdgeInput<S, P>) -> Option<EdgeOutput<S, P>>,
    C: Fn(PairInput<S, P>) -> Option<(P, P)>,
    L: Fn(P, P) -> P,
    K: Fn(P, P) -> P,
    V: Fn(P, P) -> P,
>(
    sim_pos: &mut [P],
    prev_pos: &mut [P],
    vel: &mut [P],
    jac_work: &mut [P],
    inv_mass: &[S],
    constraint_i: &[u32],
    constraint_j: &[u32],
    constraint_rest_len: &[S],
    constraint_compliance: &[S],
    p: &XpbdCpuTimeStepParams<S, P>,
    ops: &CpuOps<S, P, B, H, A, G, E, C, L, K, V>,
)
    requires
        ops.total(),
        old(sim_pos)@.len() <= u32::MAX,
        old(prev_pos)@.len() == old(sim_pos)@.len(),
        old(vel)@.len() == old(sim_pos)@.len(),
        old(jac_work)@.len() == old(sim_pos)@.len(),
        tables(
            inv_mass,
            constraint_i,
            constraint_j,
            constraint_rest_len,
            constraint_compliance,
        ).wf(old(sim_pos)@.len() as int),
    ensures
        final(prev_pos)@ == old(sim_pos)@,
        final(jac_work)@ == final(sim_pos)@,
        final(sim_pos)@.len() == old(sim_pos)@.len(),
        final(vel)@.len() == old(vel)@.len(),
        forall|m: CpuModel<S, P>| #[trigger]
            ops.computes(m) ==> (final(sim_pos)@, final(vel)@) == free_substep(
                m,
                *p,
                tables(
                    inv_mass,
                    constraint_i,
                    constraint_j,
                    constraint_rest_len,
                    constraint_compliance,
                ),
                ops.zero,
                (old(sim_pos)@, old(vel)@),
            ),
{
    integrate(
        sim_pos,
        prev_pos,
        vel,
        jac_work,
        inv_mass,
        constraint_i,
        constraint_j,
        constraint_rest_len,
        constraint_compliance,
        p,
        ops,
    );
    update_velocities(sim_pos, prev_pos, vel, inv_mass, ops);
}

/// One substep that resolves collisions after the constraints.
pub fn substep_with_collisions<
    S: Copy,
    P: Copy,
    B: Fn(S) -> bool,
    H: Fn(S) -> bool,
    A: Fn(P, P) -> (P, P),
    G: Fn(P) -> P,
    E: Fn(EdgeInput<S, P>) -> Option<EdgeOutput<S, P>>,
    C: Fn(PairInput<S, P>) -> Option<(P, P)>,
    L: Fn(P, P) -> P,
    K: Fn(P, P) -> P,
    V: Fn(P, P) -> P,
>(
    sim_pos: &mut [P],
    prev_pos: &mut [P],
    vel: &mut [P],
    jac_work: &mut [P],
    inv_mass: &[S],
    constraint_i: &[u32],
    constraint_j: &[u32],
    constraint_rest_len: &[S],
    constraint_compliance: &[S],
    rest_pos: &[P],
    p: &XpbdCpuTimeStepParams<S, P>,
    ops: &CpuOps<S, P, B, H, A, G, E, C, L, K, V>,
)
    requires
        ops.total(),
        rest_pos@.len() == old(sim_pos)@.len(),
        old(sim_pos)@.len() <= u32::MAX,
        old(prev_pos)@.len() == old(sim_pos)@.len(),
        old(vel)@.len() == old(sim_pos)@.len(),
        old(jac_work)@.len() == old(sim_pos)@.len(),
        tables(
            inv_mass,
            constraint_i,
            constraint_j,
            constraint_rest_len,
            constraint_compliance,
        ).wf(old(sim_pos)@.len() as int),
    ensures
        final(prev_pos)@ == old(sim_pos)@,
        final(jac_work)@.len() == old(jac_work)@.len(),
        final(sim_pos)@.len() == old(sim_pos)@.len(),
        final(vel)@.len() == old(vel)@.len(),
        forall|m: CpuModel<S, P>| #[trigger]
            ops.computes(m) ==> {
                &&& (final(sim_pos)@, final(vel)@) == colliding_substep(
                    m,
                    *p,
                    tables(
                        inv_mass,
                        constraint_i,
                        constraint_j,
                        constraint_rest_len,
                        constraint_compliance,
                    ),
                    ops.zero,
                    rest_pos@,
                    ops.origin,
                    (old(sim_pos)@, old(vel)@),
                )
                &&& final(jac_work)@ == integrated(
                    m,
                    *p,
                    tables(
                        inv_mass,
                        constraint_i,
                        constraint_j,
                        constraint_rest_len,
                        constraint_compliance,
                    ),
                    ops.zero,
                    old(sim_pos)@,
                    old(vel)@,
                )
            },
{
    integrate(
        sim_pos,
        prev_pos,
        vel,
        jac_work,
        inv_mass,
        constraint_i,
        constraint_j,
        constraint_rest_len,
        constraint_compliance,
        p,
        ops,
    );
    resolve_collisions(sim_pos, inv_mass, rest_pos, ops);
    update_velocities(sim_pos, prev_pos, vel, inv_mass, ops);
}

/// A frame: all its substeps, without collisions.
pub fn frame_without_collisions<
    S: Copy,
    P: Copy,
    B: Fn(S) -> bool,
    H: Fn(S) -> bool,
    A: Fn(P, P) -> (P, P),
    G: Fn(P) -> P,
    E: Fn(EdgeInput<S, P>) -> Option<EdgeOutput<S, P>>,
    C: Fn(PairInput<S, P>) -> Option<(P, P)>,
    L: Fn(P, P) -> P,
    K: Fn(P, P) -> P,
    V: Fn(P, P) -> P,
>(
    sim_pos: &mut [P],
    prev_pos: &mut [P],
    vel: &mut [P],
    jac_work: &mut [P],
    inv_mass: &[S],
    constraint_i: &[u32],
    constraint_j: &[u32],
    constraint_rest_len: &[S],
    constraint_compliance: &[S],
    substep: &XpbdCpuTimeStepParams<S, P>,
    ops: &CpuOps<S, P, B, H, A, G, E, C, L, K, V>,
)
    requires
        ops.total(),
        old(sim_pos)@.len() <= u32::MAX,
        old(prev_pos)@.len() == old(sim_pos)@.len(),
        old(vel)@.len() == old(sim_pos)@.len(),
        old(jac_work)@.len() == old(sim_pos)@.len(),
        tables(
            inv_mass,
            constraint_i,
            constraint_j,
            constraint_rest_len,
            constraint_compliance,
        ).wf(old(sim_pos)@.len() as int),
    ensures
        final(sim_pos)@.len() == old(sim_pos)@.len(),
        final(prev_pos)@.len() == old(prev_pos)@.len(),
        final(vel)@.len() == old(vel)@.len(),
        final(jac_work)@ == final(sim_pos)@,
        forall|m: CpuModel<S, P>| #[trigger]
            ops.computes(m) ==> {
                let t = tables(
                    inv_mass,
                    constraint_i,
                    constraint_j,
                    constraint_rest_len,
                    constraint_compliance,
                );
                let start = (old(sim_pos)@, old(vel)@);
                &&& (final(sim_pos)@, final(vel)@) == free_substeps(
                    m,
                    *substep,
                    t,
                    ops.zero,
                    start,
                    SUBSTEPS as int,
                )
                &&& final(prev_pos)@ == free_substeps(
                    m,
                    *substep,
                    t,
                    ops.zero,
                    start,
                    SUBSTEPS - 1,
                ).0
            },
{
    let ghost t = tables(
        inv_mass,
        constraint_i,
        constraint_j,
        constraint_rest_len,
        constraint_compliance,
    );
    let ghost start = (sim_pos@, vel@);
    let ghost n = sim_pos@.len();
    let mut k: u32 = 0;
    while k < SUBSTEPS
        invariant
            k <= SUBSTEPS,
            ops.total(),
            t == tables(
                inv_mass,
                constraint_i,
                constraint_j,
                constraint_rest_len,
                constraint_compliance,
            ),
            t.wf(n as int),
            n <= u32::MAX,
            sim_pos@.len() == n,
            prev_pos@.len() == n,
            vel@.len() == n,
            jac_work@.len() == n,
            k > 0 ==> jac_work@ == sim_pos@,
            forall|m: CpuModel<S, P>| #[trigger]
                ops.computes(m) ==> {
                    &&& (sim_pos@, vel@) == free_substeps(
                        m,
                        *substep,
                        t,
                        ops.zero,
                        start,
                        k as int,
                    )
                    &&& k > 0 ==> prev_pos@ == free_substeps(
                        m,
                        *substep,
                        t,
                        ops.zero,
                        start,
                        k - 1,
                    ).0
                },
        decreases SUBSTEPS - k,
    {
        substep_without_collisions(
            sim_pos,
            prev_pos,
            vel,
            jac_work,
            inv_mass,
            constraint_i,
            constraint_j,
            constraint_rest_len,
            constraint_compliance,
            substep,
            ops,
        );
        k = k + 1;
    }
}

/// A frame: all its substeps, each of which resolves collisions.
pub fn frame_with_collisions<
    S: Copy,
    P: Copy,
    B: Fn(S) -> bool,
    H: Fn(S) -> bool,
    A: Fn(P, P) -> (P, P),
    G: Fn(P) -> P,
    E: Fn(EdgeInput<S, P>) -> Option<EdgeOutput<S, P>>,
    C: Fn(PairInput<S, P>) -> Option<(P, P)>,
    L: Fn(P, P) -> P,
    K: Fn(P, P) -> P,
    V: Fn(P, P) -> P,
>(
    sim_pos: &mut [P],
    prev_pos: &mut [P],
    vel: &mut [P],
    jac_work: &mut [P],
    inv_mass: &[S],
    constraint_i: &[u32],
    constraint_j: &[u32],
    constraint_rest_len: &[S],
    constraint_compliance: &[S],
    rest_pos: &[P],
    substep: &XpbdCpuTimeStepParams<S, P>,
    ops: &CpuOps<S, P, B, H, A, G, E, C, L, K, V>,
)
    requires
        ops.total(),
        rest_pos@.len() == old(sim_pos)@.len(),
        old(sim_pos)@.len() <= u32::MAX,
        old(prev_pos)@.len() == old(sim_pos)@.len(),
        old(vel)@.len() == old(sim_pos)@.len(),
        old(jac_work)@.len() == old(sim_pos)@.len(),
        tables(
            inv_mass,
            constraint_i,
            constraint_j,
            constraint_rest_len,
            constraint_compliance,
        ).wf(old(sim_pos)@.len() as int),
    ensures
        final(sim_pos)@.len() == old(sim_pos)@.len(),
        final(prev_pos)@.len() == old(prev_pos)@.len(),
        final(vel)@.len() == old(vel)@.len(),
        final(jac_work)@.len() == old(jac_work)@.len(),
        forall|m: CpuModel<S, P>| #[trigger]
            ops.computes(m) ==> {
                let t = tables(
                    inv_mass,
                    constraint_i,
                    constraint_j,
                    constraint_rest_len,
                    constraint_compliance,
                );
                let start = (old(sim_pos)@, old(vel)@);
                let before = colliding_substeps(
                    m,
                    *substep,
                    t,
                    ops.zero,
                    rest_pos@,
                    ops.origin,
                    start,
                    SUBSTEPS - 1,
                );
                &&& (final(sim_pos)@, final(vel)@) == colliding_substeps(
                    m,
                    *substep,
                    t,
                    ops.zero,
                    rest_pos@,
                    ops.origin,
                    start,
                    SUBSTEPS as int,
                )
                &&& final(prev_pos)@ == before.0
                &&& final(jac_work)@ == integrated(m, *substep, t, ops.zero, before.0, before.1)
            },
{
    let ghost t = tables(
        inv_mass,
        constraint_i,
        constraint_j,
        constraint_rest_len,
        constraint_compliance,
    );
    let ghost start = (sim_pos@, vel@);
    let ghost n = sim_pos@.len();
    let mut k: u32 = 0;
    while k < SUBSTEPS
        invariant
            k <= SUBSTEPS,
            ops.total(),
            t == tables(
                inv_mass,
                constraint_i,
                constraint_j,
                constraint_rest_len,
                constraint_compliance,
            ),
            t.wf(n as int),
            n <= u32::MAX,
            rest_pos@.len() == n,
            sim_pos@.len() == n,
            prev_pos@.len() == n,
            vel@.len() == n,
            jac_work@.len() == n,
            forall|m: CpuModel<S, P>| #[trigger]
                ops.computes(m) ==> {
                    let before = colliding_substeps(
                        m,
                        *substep,
                        t,
                        ops.zero,
                        rest_pos@,
                        ops.origin,
                        start,
                        k - 1,
                    );
                    &&& (sim_pos@, vel@) == colliding_substeps(
                        m,
                        *substep,
                        t,
                        ops.zero,
                        rest_pos@,
                        ops.origin,
                        start,
                        k as int,
                    )
                    &&& k > 0 ==> prev_pos@ == before.0
                    &&& k > 0 ==> jac_work@ == integrated(
                        m,
                        *substep,
                        t,
                        ops.zero,
                        before.0,
                        before.1,
                    )
                },
        decreases SUBSTEPS - k,
    {
        substep_with_collisions(
            sim_pos,
            prev_pos,
            vel,
            jac_work,
            inv_mass,
            constraint_i,
            constraint_j,
            constraint_rest_len,
            constraint_compliance,
            rest_pos,
            substep,
            ops,
        );
        k = k + 1;
    }
}

} // verus!
