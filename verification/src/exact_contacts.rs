//! Collisions of all particles, over real numbers.

use vstd::prelude::*;

use crate::arith::ArithModel;
use crate::exact::{difference, exact, law_displaced, limited, sum, Vector};
use crate::substep::{
    all_accum, pair_step, resolved, row_accum, CpuModel, PairInput, XpbdCpuTimeStepParams,
};
use crate::xpbd_cpu::{collision_model, cpu_model};

verus! {

/// A cloth whose collisions are resolved: the inverse masses, the positions at rest and now, and the
/// thickness and strength.
pub struct Contacts {
    pub inv_mass: Seq<real>,
    pub rest: Seq<Vector>,
    pub sim: Seq<Vector>,
    pub thickness: real,
    pub coll_scale: real,
}

impl Contacts {
    pub open spec fn wf(&self) -> bool {
        &&& self.inv_mass.len() == self.sim.len()
        &&& self.rest.len() == self.sim.len()
    }

    pub open spec fn pair(&self, a: int, b: int) -> PairInput<real, Vector> {
        PairInput {
            p_i: self.sim[a],
            p_j: self.sim[b],
            rest_i: self.rest[a],
            rest_j: self.rest[b],
            w_i: self.inv_mass[a],
            w_j: self.inv_mass[b],
        }
    }

    /// What particle `q` is moved by on account of particle `b`: its part of their separation, where
    /// they are in contact.
    pub open spec fn push(&self, m: ArithModel<real, Vector>, q: int, b: int) -> Vector {
        let none = (0real, 0real, 0real);
        if q < b {
            match m.separated(self.pair(q, b), self.thickness, self.coll_scale) {
                Some((d, _)) => d,
                None => none,
            }
        } else if b < q {
            match m.separated(self.pair(b, q), self.thickness, self.coll_scale) {
                Some((_, d)) => d,
                None => none,
            }
        } else {
            none
        }
    }

    /// What particle `q` is moved by on account of the first `k` particles together.
    pub open spec fn pushes(&self, m: ArithModel<real, Vector>, q: int, k: int) -> Vector
        decreases k,
    {
        if k <= 0 {
            (0real, 0real, 0real)
        } else {
            sum(self.pushes(m, q, k - 1), self.push(m, q, k - 1))
        }
    }
}

/// The accumulated displacement of particle `q` when the pairs of the rows below `i`, and those of
/// row `i` up to column `j`, were looked at.
spec fn gathered(c: Contacts, m: ArithModel<real, Vector>, i: int, j: int, q: int) -> Vector {
    if q < i {
        c.pushes(m, q, c.sim.len() as int)
    } else if q == i {
        c.pushes(m, q, j)
    } else if q < j {
        c.pushes(m, q, i + 1)
    } else {
        c.pushes(m, q, i)
    }
}

/// The displacements are those gathered, but for pinned particles.
spec fn is_gathered(
    c: Contacts,
    m: ArithModel<real, Vector>,
    accum: Seq<Vector>,
    i: int,
    j: int,
) -> bool {
    &&& accum.len() == c.sim.len()
    &&& forall|q: int|
        0 <= q < c.sim.len() && 0real < c.inv_mass[q] ==> #[trigger] accum[q] == gathered(
            c,
            m,
            i,
            j,
            q,
        )
}

/// Collisions are resolved with the formulas of `m`.
spec fn collides(c: Contacts, m: ArithModel<real, Vector>, s: CpuModel<real, Vector>) -> bool {
    &&& s.positive == |w: real| (m.lt)(m.k.zero, w)
    &&& s.held == |w: real| (m.le)(w, m.k.zero)
    &&& s.separate == |e: PairInput<real, Vector>| m.separated(e, c.thickness, c.coll_scale)
    &&& s.plus == |x: Vector, y: Vector| (m.v_plus)(x, y)
    &&& s.displace == |x: Vector, d: Vector| m.displaced(x, d)
}

proof fn lemma_pair(
    c: Contacts,
    m: ArithModel<real, Vector>,
    s: CpuModel<real, Vector>,
    accum: Seq<Vector>,
    i: int,
    j: int,
)
    requires
        exact(m),
        collides(c, m, s),
        c.wf(),
        0 <= i < j < c.sim.len(),
        is_gathered(c, m, accum, i, j),
    ensures
        is_gathered(
            c,
            m,
            pair_step(s, c.inv_mass, c.rest, c.sim, accum, i, j),
            i,
            j + 1,
        ),
{
    let after = pair_step(s, c.inv_mass, c.rest, c.sim, accum, i, j);
    let e = c.pair(i, j);
    assert((s.separate)(e) == m.separated(e, c.thickness, c.coll_scale));
    assert forall|q: int| 0 <= q < c.sim.len() && 0real < c.inv_mass[q] implies #[trigger] after[q]
        == gathered(c, m, i, j + 1, q) by {
        assert(accum[q] == gathered(c, m, i, j, q));
        if q == i {
            assert(c.pushes(m, q, j + 1) == sum(c.pushes(m, q, j), c.push(m, q, j)));
        } else if q == j {
            assert(c.pushes(m, q, i + 1) == sum(c.pushes(m, q, i), c.push(m, q, i)));
        }
    }
}

proof fn lemma_row(
    c: Contacts,
    m: ArithModel<real, Vector>,
    s: CpuModel<real, Vector>,
    accum: Seq<Vector>,
    i: int,
    j: int,
)
    requires
        exact(m),
        collides(c, m, s),
        c.wf(),
        0 <= i < j <= c.sim.len(),
        is_gathered(c, m, accum, i, i + 1),
    ensures
        is_gathered(c, m, row_accum(s, c.inv_mass, c.rest, c.sim, accum, i, j), i, j),
    decreases j,
{
    if j > i + 1 {
        lemma_row(c, m, s, accum, i, j - 1);
        lemma_pair(
            c,
            m,
            s,
            row_accum(s, c.inv_mass, c.rest, c.sim, accum, i, j - 1),
            i,
            j - 1,
        );
    }
}

proof fn lemma_rows(
    c: Contacts,
    m: ArithModel<real, Vector>,
    s: CpuModel<real, Vector>,
    i: int,
)
    requires
        exact(m),
        collides(c, m, s),
        c.wf(),
        0 <= i <= c.sim.len(),
    ensures
        is_gathered(c, m, all_accum(s, c.inv_mass, c.rest, c.sim, m.k.origin, i), i, i),
    decreases i,
{
    let n = c.sim.len() as int;
    let accum = all_accum(s, c.inv_mass, c.rest, c.sim, m.k.origin, i);
    if i > 0 {
        let before = all_accum(s, c.inv_mass, c.rest, c.sim, m.k.origin, i - 1);
        lemma_rows(c, m, s, i - 1);
        assert forall|q: int| 0 <= q < n && 0real < c.inv_mass[q] implies #[trigger] before[q]
            == gathered(c, m, i - 1, i, q) by {
            if q == i - 1 {
                assert(c.pushes(m, q, q + 1) == sum(c.pushes(m, q, q), c.push(m, q, q)));
            }
        }
        lemma_row(c, m, s, before, i - 1, n);
        assert forall|q: int| 0 <= q < n && 0real < c.inv_mass[q] implies #[trigger] accum[q]
            == gathered(c, m, i, i, q) by {}
    }
}

/// A particle that can move is displaced by its parts of all its separations together, along each axis
/// up to the limit. One that cannot stays.
pub proof fn law_contacts_add_up(c: Contacts, m: ArithModel<real, Vector>, q: int)
    requires
        exact(m),
        c.wf(),
        0 <= q < c.sim.len(),
    ensures
        ({
            let s = collision_model(m, c.thickness, c.coll_scale);
            let after = resolved(s, c.inv_mass, c.rest, c.sim, m.k.origin);
            let way = c.pushes(m, q, c.sim.len() as int);
            let limit = m.k.collision_clamp;
            &&& after.len() == c.sim.len()
            &&& c.inv_mass[q] <= 0real ==> after[q] == c.sim[q]
            &&& 0real < c.inv_mass[q] ==> difference(after[q], c.sim[q]) == (
                limited(way.0, limit),
                limited(way.1, limit),
                limited(way.2, limit),
            )
        }),
{
    let s = collision_model(m, c.thickness, c.coll_scale);
    let n = c.sim.len() as int;
    lemma_rows(c, m, s, n);
    let accum = all_accum(s, c.inv_mass, c.rest, c.sim, m.k.origin, n);
    if 0real < c.inv_mass[q] {
        assert(accum[q] == gathered(c, m, n, n, q));
        law_displaced(m, c.sim[q], accum[q]);
    }
}

/// The collisions of a substep are those alone.
pub proof fn law_substeps_resolve_alike(
    c: Contacts,
    m: ArithModel<real, Vector>,
    p: XpbdCpuTimeStepParams<real, Vector>,
)
    requires
        exact(m),
        c.wf(),
    ensures
        resolved(
            cpu_model(m, p, c.thickness, c.coll_scale),
            c.inv_mass,
            c.rest,
            c.sim,
            m.k.origin,
        ) == resolved(
            collision_model(m, c.thickness, c.coll_scale),
            c.inv_mass,
            c.rest,
            c.sim,
            m.k.origin,
        ),
{
    let s = cpu_model(m, p, c.thickness, c.coll_scale);
    let r = collision_model(m, c.thickness, c.coll_scale);
    let n = c.sim.len() as int;
    lemma_rows(c, m, s, n);
    lemma_rows(c, m, r, n);
    let a = all_accum(s, c.inv_mass, c.rest, c.sim, m.k.origin, n);
    let b = all_accum(r, c.inv_mass, c.rest, c.sim, m.k.origin, n);
    assert forall|q: int| 0 <= q < n && 0real < c.inv_mass[q] implies #[trigger] a[q] == b[q] by {
        assert(b[q] == gathered(c, m, n, n, q));
    }
    assert(resolved(s, c.inv_mass, c.rest, c.sim, m.k.origin) =~= resolved(
        r,
        c.inv_mass,
        c.rest,
        c.sim,
        m.k.origin,
    ));
}

} // verus!
