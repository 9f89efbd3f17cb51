//! How many dispatches a frame takes, and when collisions are due.

use vstd::arithmetic::div_mod::{lemma_fundamental_div_mod, lemma_fundamental_div_mod_converse};
use vstd::prelude::*;

use crate::frame::{
    at_least_one, collisions, frame, groups, integrate, narrow_phase, normals, pass, radix_pass,
    radix_passes, run, substep_tail, substeps, take_over, Binding, Command, FrameShape, Kernel, Pass,
};

verus! {

/// The number of dispatches among the commands.
pub open spec fn dispatches(c: Seq<Command>) -> int
    decreases c.len(),
{
    if c.len() == 0 {
        0
    } else {
        dispatches(c.drop_last()) + if c.last() is Dispatch {
            1int
        } else {
            0
        }
    }
}

/// The workgroups cover all items, and none of them is idle.
pub proof fn law_groups_cover(n: int, width: int)
    requires
        0 <= n,
        1 <= width,
        n + width - 1 <= u32::MAX,
    ensures
        n <= groups(n, width) * width < n + width,
{
    let t = n + width - 1;
    lemma_fundamental_div_mod(t, width);
    let q = t / width;
    assert(0 <= q <= t && q * width == width * q) by (nonlinear_arith)
        requires
            t == width * q + t % width,
            0 <= t % width < width,
            0 <= t,
            1 <= width,
    ;
}

pub proof fn lemma_dispatches_add(a: Seq<Command>, b: Seq<Command>)
    ensures
        dispatches(a + b) == dispatches(a) + dispatches(b),
    decreases b.len(),
{
    if b.len() == 0 {
        assert(a + b =~= a);
    } else {
        lemma_dispatches_add(a, b.drop_last());
        assert((a + b).drop_last() =~= a + b.drop_last());
    }
}

pub proof fn lemma_dispatches_one(c: Command)
    ensures
        dispatches(seq![c]) == if c is Dispatch {
            1int
        } else {
            0
        },
{
    assert(seq![c].drop_last() =~= seq![]);
    assert(dispatches(seq![]) == 0);
}

pub proof fn lemma_dispatches_run(k: Kernel, n: u32)
    ensures
        dispatches(run(k, n)) == 1,
{
    let a = Command::SetPipeline(k);
    let b = Command::Dispatch(n);
    lemma_dispatches_one(a);
    lemma_dispatches_one(b);
    lemma_dispatches_add(seq![a], seq![b]);
    assert(run(k, n) =~= seq![a] + seq![b]);
}

pub proof fn lemma_dispatches_pass(p: Pass, b: Binding, body: Seq<Command>)
    ensures
        dispatches(pass(p, b, body)) == dispatches(body),
{
    let first = seq![Command::BeginPass(p), Command::Bind(b)];
    lemma_dispatches_one(Command::BeginPass(p));
    lemma_dispatches_one(Command::Bind(b));
    lemma_dispatches_one(Command::EndPass);
    lemma_dispatches_add(seq![Command::BeginPass(p)], seq![Command::Bind(b)]);
    assert(first =~= seq![Command::BeginPass(p)] + seq![Command::Bind(b)]);
    lemma_dispatches_add(first, body);
    lemma_dispatches_add(first + body, seq![Command::EndPass]);
}

proof fn lemma_dispatches_runs4(
    k: (Kernel, Kernel, Kernel, Kernel),
    n: (u32, u32, u32, u32),
)
    ensures
        dispatches(run(k.0, n.0) + run(k.1, n.1) + run(k.2, n.2) + run(k.3, n.3)) == 4,
{
    let (a, b, c, d) = (run(k.0, n.0), run(k.1, n.1), run(k.2, n.2), run(k.3, n.3));
    lemma_dispatches_run(k.0, n.0);
    lemma_dispatches_run(k.1, n.1);
    lemma_dispatches_run(k.2, n.2);
    lemma_dispatches_run(k.3, n.3);
    lemma_dispatches_add(a, b);
    lemma_dispatches_add(a + b, c);
    lemma_dispatches_add(a + b + c, d);
}

/// Three kernels with a rebinding before the second and the third.
proof fn lemma_dispatches_rebound(
    b: Binding,
    k: (Kernel, Kernel, Kernel),
    n: (u32, u32, u32),
)
    ensures
        dispatches(
            run(k.0, n.0) + seq![Command::Bind(b)] + run(k.1, n.1) + seq![Command::Bind(b)] + run(
                k.2,
                n.2,
            ),
        ) == 3,
{
    let s = seq![Command::Bind(b)];
    let (x, y, z) = (run(k.0, n.0), run(k.1, n.1), run(k.2, n.2));
    lemma_dispatches_one(Command::Bind(b));
    lemma_dispatches_run(k.0, n.0);
    lemma_dispatches_run(k.1, n.1);
    lemma_dispatches_run(k.2, n.2);
    lemma_dispatches_add(x, s);
    lemma_dispatches_add(x + s, y);
    lemma_dispatches_add(x + s + y, s);
    lemma_dispatches_add(x + s + y + s, z);
}

proof fn lemma_dispatches_radix(f: FrameShape, base: Binding, d: int)
    requires
        0 <= d,
    ensures
        dispatches(radix_passes(f, base, d)) == 4 * d,
    decreases d,
{
    if d > 0 {
        lemma_dispatches_radix(f, base, d - 1);
        let last = radix_pass(f, base, (d - 1) as u32);
        lemma_dispatches_add(radix_passes(f, base, d - 1), last);
        let write = Command::WriteRadixPass((d - 1) as u32);
        let body = run(Kernel::CollHistogramClear, 1) + run(
            Kernel::CollRadixDigitCount,
            f.wg_n256(),
        ) + run(Kernel::CollRadixExclusiveBasesHeads, 1) + run(
            Kernel::CollRadixDigitScatter,
            f.wg_n256(),
        );
        lemma_dispatches_one(write);
        lemma_dispatches_runs4(
            (
                Kernel::CollHistogramClear,
                Kernel::CollRadixDigitCount,
                Kernel::CollRadixExclusiveBasesHeads,
                Kernel::CollRadixDigitScatter,
            ),
            (1, f.wg_n256(), 1, f.wg_n256()),
        );
        lemma_dispatches_pass(Pass::CollisionRadix, base, body);
        lemma_dispatches_add(seq![write], pass(Pass::CollisionRadix, base, body));
    }
}

/// The dispatches that resolve the collisions of one substep.
pub open spec fn collision_dispatches(f: FrameShape) -> int {
    6 + 4 * at_least_one(f.radix_digits)
}

proof fn lemma_dispatches_tail(f: FrameShape, base: Binding, solved: Binding, si: int)
    ensures
        dispatches(substep_tail(f, base, solved, si)) == 2 + if f.collides_in(si) {
            collision_dispatches(f)
        } else {
            0
        },
{
    let due = f.collides_in(si);
    let copy = run(Kernel::CopyJacToSim, f.wg64());
    lemma_dispatches_run(Kernel::CopyJacToSim, f.wg64());
    if due {
        lemma_dispatches_rebound(
            base,
            (Kernel::CopyJacToSim, Kernel::ClearAtomics, Kernel::CollPermIdentityPing),
            (f.wg64(), f.wg256(), f.wg_n256()),
        );
        lemma_dispatches_pass(
            Pass::CollisionVelocity,
            solved,
            copy + seq![Command::Bind(base)] + run(Kernel::ClearAtomics, f.wg256()) + seq![
                Command::Bind(base),
            ] + run(Kernel::CollPermIdentityPing, f.wg_n256()),
        );
        let digits = at_least_one(f.radix_digits) as int;
        lemma_dispatches_radix(f, base, digits);
        let clear = at_least_one(groups(at_least_one(f.num_cells) as int, 256));
        lemma_dispatches_runs4(
            (
                Kernel::CollCellBoundsClear,
                Kernel::CollSortedBuildCellRanges,
                Kernel::CollideGridCells,
                Kernel::CollideApply,
            ),
            (clear, f.wg_n256(), f.wg_n256(), f.wg64()),
        );
        lemma_dispatches_pass(
            Pass::CollisionGridNarrow,
            base,
            run(Kernel::CollCellBoundsClear, clear) + run(
                Kernel::CollSortedBuildCellRanges,
                f.wg_n256(),
            ) + run(Kernel::CollideGridCells, f.wg_n256()) + run(Kernel::CollideApply, f.wg64()),
        );
        lemma_dispatches_add(radix_passes(f, base, digits), narrow_phase(f, base));
    } else {
        lemma_dispatches_pass(Pass::CollisionVelocity, solved, copy);
        assert(dispatches(collisions(f, base, due)) == 0);
    }
    let post = pass(Pass::PostVelocity, base, run(Kernel::PostVelocity, f.wg64()));
    lemma_dispatches_run(Kernel::PostVelocity, f.wg64());
    lemma_dispatches_pass(Pass::PostVelocity, base, run(Kernel::PostVelocity, f.wg64()));
    lemma_dispatches_add(take_over(f, base, solved, due), collisions(f, base, due));
    lemma_dispatches_add(take_over(f, base, solved, due) + collisions(f, base, due), post);
}

/// How many of the first `k` substeps resolve collisions.
pub open spec fn collision_count(f: FrameShape, k: int) -> int
    decreases k,
{
    if k <= 0 {
        0
    } else {
        collision_count(f, k - 1) + if f.collides_in(k - 1) {
            1int
        } else {
            0
        }
    }
}

/// Collisions are resolved once in every so many substeps, or never.
pub proof fn law_collision_count(f: FrameShape, k: int)
    requires
        0 <= k,
    ensures
        collision_count(f, k) == if f.collisions {
            k / (at_least_one(f.collision_every) as int)
        } else {
            0
        },
    decreases k,
{
    let n = at_least_one(f.collision_every) as int;
    if k > 0 {
        law_collision_count(f, k - 1);
        lemma_fundamental_div_mod(k - 1, n);
        let q = (k - 1) / n;
        let r = (k - 1) % n;
        if r == n - 1 {
            assert(k == (q + 1) * n + 0) by (nonlinear_arith)
                requires
                    k - 1 == n * q + r,
                    r == n - 1,
            ;
            lemma_fundamental_div_mod_converse(k, n, q + 1, 0);
        } else {
            assert(k == q * n + (r + 1)) by (nonlinear_arith)
                requires
                    k - 1 == n * q + r,
            ;
            lemma_fundamental_div_mod_converse(k, n, q, r + 1);
        }
    } else {
        lemma_fundamental_div_mod_converse(0, n, 0, 0);
    }
}

proof fn lemma_dispatches_substeps(
    f: FrameShape,
    base: Binding,
    solved: Binding,
    distance: Seq<Command>,
    k: int,
)
    requires
        0 <= k,
    ensures
        dispatches(substeps(f, base, solved, distance, k)) == k * (3 + dispatches(distance))
            + collision_count(f, k) * collision_dispatches(f),
    decreases k,
{
    if k > 0 {
        lemma_dispatches_substeps(f, base, solved, distance, k - 1);
        let before = substeps(f, base, solved, distance, k - 1);
        let first = integrate(f, base);
        lemma_dispatches_run(Kernel::PredictCopySimToJac, f.wg64());
        lemma_dispatches_pass(
            Pass::IntegrateJacSeed,
            base,
            run(Kernel::PredictCopySimToJac, f.wg64()),
        );
        lemma_dispatches_tail(f, base, solved, k - 1);
        lemma_dispatches_add(before, first);
        lemma_dispatches_add(before + first, distance);
        lemma_dispatches_add(before + first + distance, substep_tail(f, base, solved, k - 1));
        let d = 3 + dispatches(distance);
        let c = collision_count(f, k - 1);
        let e = collision_dispatches(f);
        assert((k - 1) * d + d == k * d) by (nonlinear_arith);
        assert(c * e + e == (c + 1) * e) by (nonlinear_arith);
    } else {
        assert(0 * (3 + dispatches(distance)) == 0);
        assert(0 * collision_dispatches(f) == 0);
    }
}

/// A frame of `S` substeps takes three dispatches in each and those of the constraints, the
/// dispatches of the collisions in each substep that resolves them, and three for the normals.
pub proof fn law_frame_dispatches(
    f: FrameShape,
    base: Binding,
    solved: Binding,
    distance: Seq<Command>,
)
    ensures
        dispatches(frame(f, base, solved, distance)) == {
            let s = at_least_one(f.substeps) as int;
            s * (3 + dispatches(distance)) + collision_count(f, s) * collision_dispatches(f) + 3
        },
{
    let s = at_least_one(f.substeps) as int;
    lemma_dispatches_substeps(f, base, solved, distance, s);
    lemma_dispatches_rebound(
        base,
        (Kernel::ClearNormAtomics, Kernel::AccumulateNormals, Kernel::FinalizeNormals),
        (f.wg256(), groups(f.num_tris as int, 64), f.wg64()),
    );
    lemma_dispatches_pass(
        Pass::MeshNormals,
        base,
        run(Kernel::ClearNormAtomics, f.wg256()) + seq![Command::Bind(base)] + run(
            Kernel::AccumulateNormals,
            groups(f.num_tris as int, 64),
        ) + seq![Command::Bind(base)] + run(Kernel::FinalizeNormals, f.wg64()),
    );
    lemma_dispatches_add(substeps(f, base, solved, distance, s), normals(f, base));
}

} // verus!
