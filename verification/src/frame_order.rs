//! In what order the kernels of a frame run.

use vstd::prelude::*;

use crate::cloth_compute::{
    batch_span, gs_batches, gs_distance, gs_iteration, gs_iterations, slot_offset, GS_EDGE_THREADS,
};
use crate::cloth_jacobi::{
    copy_binding, iteration_binding, jacobi_distance, jacobi_iteration, jacobi_iterations,
    law_iterations_alternate, law_last_iteration_is_taken_over, reads_from, solved_in, writes_to,
};
use crate::device::ClothBuffer;
use crate::frame::{
    at_least_one, collisions, frame, groups, integrate, narrow_phase, normals, pass, radix_pass,
    radix_passes, run, substep_tail, substeps, take_over, Binding, Command, FrameShape, Kernel, Pass,
};
use crate::frame_laws::{collision_count, law_groups_cover};

verus! {

/// How far a frame got.
pub enum Stage {
    /// The velocities belong to the positions. A substep can begin, or the frame end.
    Settled,
    /// The positions are predicted, and the solver starts from them.
    Seeded,
    /// The multipliers are cleared, and constraints are being solved.
    Solving,
    /// The corrections of all constraints are computed, but not applied.
    Corrected,
    /// The solved positions are the positions.
    TakenOver,
    /// The accumulated displacements are zero.
    Cleared,
    /// The particles are sorted by so many digits of their cells.
    Sorted(u32),
    /// The histogram for the next digit is empty.
    Emptied(u32),
    /// The histogram for the next digit is filled.
    Counted(u32),
    /// The places for the next digit are computed.
    Based(u32),
    /// The ranges of the cells are empty.
    Bounded,
    /// The ranges of the cells are filled.
    Ranged,
    /// The displacements of all contacts are accumulated.
    Collected,
    /// The displacements are applied.
    Moved,
    /// The accumulated normals are zero.
    NormalsCleared,
    /// The normals of all triangles are accumulated.
    NormalsGathered,
    /// The frame can be drawn.
    Rendered,
}

/// The stage after a kernel, if it may run: a kernel needs the stage in which all is there that it
/// reads. A radix pass reads its number, and the narrow phase needs particles sorted by all digits.
pub open spec fn next(digits: u32, written: Option<u32>, s: Stage, k: Kernel) -> Option<Stage> {
    match (s, k) {
        (Stage::Settled, Kernel::PredictCopySimToJac) => Some(Stage::Seeded),
        (Stage::Seeded, Kernel::ClearConstraintLambda) => Some(Stage::Solving),
        (Stage::Solving, Kernel::ClearConstraintLambda) => Some(Stage::Solving),
        (Stage::Solving, Kernel::GsEdges) => Some(Stage::Solving),
        (Stage::Solving, Kernel::JacobiEdges) => Some(Stage::Corrected),
        (Stage::Corrected, Kernel::JacobiGather) => Some(Stage::Solving),
        (Stage::Seeded, Kernel::CopyJacToSim) => Some(Stage::TakenOver),
        (Stage::Solving, Kernel::CopyJacToSim) => Some(Stage::TakenOver),
        (Stage::TakenOver, Kernel::ClearAtomics) => Some(Stage::Cleared),
        (Stage::Cleared, Kernel::CollPermIdentityPing) => Some(Stage::Sorted(0)),
        (Stage::Sorted(d), Kernel::CollHistogramClear) => if written == Some(d) && d < digits {
            Some(Stage::Emptied(d))
        } else {
            None
        },
        (Stage::Emptied(d), Kernel::CollRadixDigitCount) => Some(Stage::Counted(d)),
        (Stage::Counted(d), Kernel::CollRadixExclusiveBasesHeads) => Some(Stage::Based(d)),
        (Stage::Based(d), Kernel::CollRadixDigitScatter) => Some(Stage::Sorted((d + 1) as u32)),
        (Stage::Sorted(d), Kernel::CollCellBoundsClear) => if d == digits {
            Some(Stage::Bounded)
        } else {
            None
        },
        (Stage::Bounded, Kernel::CollSortedBuildCellRanges) => Some(Stage::Ranged),
        (Stage::Ranged, Kernel::CollideGridCells) => Some(Stage::Collected),
        (Stage::Collected, Kernel::CollideApply) => Some(Stage::Moved),
        (Stage::TakenOver, Kernel::PostVelocity) => Some(Stage::Settled),
        (Stage::Moved, Kernel::PostVelocity) => Some(Stage::Settled),
        (Stage::Settled, Kernel::ClearNormAtomics) => Some(Stage::NormalsCleared),
        (Stage::NormalsCleared, Kernel::AccumulateNormals) => Some(Stage::NormalsGathered),
        (Stage::NormalsGathered, Kernel::FinalizeNormals) => Some(Stage::Rendered),
        _ => None,
    }
}

/// The invocations of a workgroup of the kernel.
pub open spec fn width(k: Kernel) -> int {
    match k {
        Kernel::ClearAtomics => 256,
        Kernel::CollCellBoundsClear => 256,
        Kernel::CollPermIdentityPing => 256,
        Kernel::CollHistogramClear => 256,
        Kernel::CollRadixDigitCount => 256,
        Kernel::CollRadixExclusiveBasesHeads => 1,
        Kernel::CollRadixDigitScatter => 256,
        Kernel::CollSortedBuildCellRanges => 256,
        Kernel::CollideGridCells => 256,
        Kernel::ClearNormAtomics => 256,
        Kernel::GsEdges => 128,
        _ => 64,
    }
}

/// How many items the kernel has one invocation for; `b` is its binding, of which the slot tells the
/// batch whose constraints are solved.
pub open spec fn items(set: Setting, k: Kernel, b: Binding) -> int {
    let f = set.f;
    match k {
        Kernel::ClearConstraintLambda => f.num_distance_constraints as int,
        Kernel::JacobiEdges => f.num_distance_constraints as int,
        Kernel::GsEdges => batch_span(set.offsets, batch_of(b)),
        Kernel::ClearAtomics => f.num_particles * 3,
        Kernel::ClearNormAtomics => f.num_particles * 3,
        Kernel::CollHistogramClear => 256,
        Kernel::CollRadixExclusiveBasesHeads => 1,
        Kernel::CollCellBoundsClear => f.num_cells as int,
        Kernel::AccumulateNormals => f.num_tris as int,
        _ => f.num_particles as int,
    }
}

/// A frame, and the bindings of its kernels: that with which the solved positions are taken over, and
/// that of all others but those which solve constraints. The offsets divide the constraints into
/// batches, if there are any.
pub struct Setting {
    pub f: FrameShape,
    pub base: Binding,
    pub solved: Binding,
    pub offsets: Seq<u32>,
    pub batches: int,
}

/// The batch whose slot is bound. A slot has 256 bytes.
pub open spec fn batch_of(b: Binding) -> int {
    match b {
        Binding::Cloth(at) => at as int / 256,
        _ => -1,
    }
}

/// The buffer of positions that a kernel which solves constraints reads with the binding.
pub open spec fn buffer_in(b: Binding) -> ClothBuffer {
    match b {
        Binding::Cloth(_) => ClothBuffer::JacState,
        _ => reads_from(b),
    }
}

/// The buffer of positions that a kernel which solves constraints writes with the binding.
pub open spec fn buffer_out(b: Binding) -> ClothBuffer {
    match b {
        Binding::Cloth(_) => ClothBuffer::JacState,
        _ => writes_to(b),
    }
}

/// The batches from `a` up to `b` have no constraints.
pub open spec fn all_empty(set: Setting, a: int, b: int) -> bool {
    forall|c: int| a <= c < b ==> #[trigger] batch_span(set.offsets, c) == 0
}

/// The kernel may run with the binding.
pub open spec fn may_bind(set: Setting, k: Kernel, b: Binding) -> bool {
    match k {
        Kernel::CopyJacToSim => b == set.solved,
        Kernel::ClearConstraintLambda => true,
        Kernel::GsEdges => true,
        Kernel::JacobiEdges => true,
        Kernel::JacobiGather => true,
        _ => b == set.base,
    }
}

/// What is recorded so far: whether a pass is open, its kernel and binding, the number of the radix
/// pass, the stage, the buffer with the positions that are being solved, the first batch that may be
/// solved next, and how many iterations and substeps ran and how many of the substeps resolved
/// collisions.
pub struct Recorder {
    pub open: bool,
    pub kernel: Option<Kernel>,
    pub bound: Option<Binding>,
    pub written: Option<u32>,
    pub stage: Stage,
    pub current: ClothBuffer,
    pub next_batch: int,
    pub iterations: int,
    pub substeps: int,
    pub collisions: int,
}

/// The batches are in turn: one is solved after those before it, and an iteration ends when none with
/// constraints is left. What is solved and taken over are the positions that were written last.
pub open spec fn in_turn(set: Setting, r: Recorder, k: Kernel, b: Binding) -> bool {
    match k {
        Kernel::GsEdges => {
            &&& r.next_batch <= batch_of(b) < set.batches
            &&& all_empty(set, r.next_batch, batch_of(b))
            &&& buffer_in(b) == r.current
        },
        Kernel::JacobiEdges => buffer_in(b) == r.current,
        Kernel::JacobiGather => buffer_in(b) == r.current && buffer_out(b) != r.current,
        Kernel::ClearConstraintLambda => all_empty(set, r.next_batch, set.batches),
        Kernel::CopyJacToSim => {
            &&& all_empty(set, r.next_batch, set.batches)
            &&& buffer_in(b) == r.current
        },
        _ => true,
    }
}

/// After the kernel ran.
pub open spec fn ran(set: Setting, r: Recorder, k: Kernel, b: Binding, s: Stage) -> Recorder {
    Recorder {
        kernel: Some(k),
        stage: s,
        current: match k {
            Kernel::PredictCopySimToJac => buffer_out(b),
            Kernel::GsEdges => buffer_out(b),
            Kernel::JacobiGather => buffer_out(b),
            _ => r.current,
        },
        next_batch: match k {
            Kernel::PredictCopySimToJac => set.batches,
            Kernel::ClearConstraintLambda => 0,
            Kernel::GsEdges => batch_of(b) + 1,
            _ => r.next_batch,
        },
        iterations: r.iterations + if k == Kernel::ClearConstraintLambda {
            1int
        } else {
            0
        },
        substeps: r.substeps + if k == Kernel::PostVelocity {
            1int
        } else {
            0
        },
        collisions: r.collisions + if k == Kernel::CollideApply {
            1int
        } else {
            0
        },
        ..r
    }
}

/// After a command, nothing where it is out of place. Kernels run in a pass, when they are set and
/// bound, with workgroups for all their items.
pub open spec fn step(set: Setting, r: Recorder, c: Command) -> Option<Recorder> {
    match c {
        Command::BeginPass(_) => if r.open {
            None
        } else {
            Some(Recorder { open: true, kernel: None, bound: None, ..r })
        },
        Command::EndPass => if r.open {
            Some(Recorder { open: false, kernel: None, bound: None, ..r })
        } else {
            None
        },
        Command::Bind(b) => if r.open {
            Some(Recorder { bound: Some(b), ..r })
        } else {
            None
        },
        Command::SetPipeline(k) => if r.open {
            Some(Recorder { kernel: Some(k), ..r })
        } else {
            None
        },
        Command::WriteRadixPass(d) => if r.open {
            None
        } else {
            Some(Recorder { written: Some(d), ..r })
        },
        Command::Dispatch(n) => match (r.kernel, r.bound) {
            (Some(k), Some(b)) => if r.open && may_bind(set, k, b) && in_turn(set, r, k, b) && items(
                set,
                k,
                b,
            ) <= n * width(k) {
                match next(at_least_one(set.f.radix_digits), r.written, r.stage, k) {
                    Some(s) => Some(ran(set, r, k, b, s)),
                    None => None,
                }
            } else {
                None
            },
            _ => None,
        },
    }
}

/// After all commands, nothing where one is out of place.
pub open spec fn steps(set: Setting, r: Recorder, c: Seq<Command>) -> Option<Recorder>
    decreases c.len(),
{
    if c.len() == 0 {
        Some(r)
    } else {
        match steps(set, r, c.drop_last()) {
            Some(q) => step(set, q, c.last()),
            None => None,
        }
    }
}

proof fn lemma_steps_add(set: Setting, r: Recorder, a: Seq<Command>, b: Seq<Command>)
    ensures
        steps(set, r, a + b) == match steps(set, r, a) {
            Some(q) => steps(set, q, b),
            None => None,
        },
    decreases b.len(),
{
    if b.len() == 0 {
        assert(a + b =~= a);
    } else {
        lemma_steps_add(set, r, a, b.drop_last());
        assert((a + b).drop_last() =~= a + b.drop_last());
        assert((a + b).last() == b.last());
    }
}

proof fn lemma_one(set: Setting, r: Recorder, c: Command)
    ensures
        steps(set, r, seq![c]) == step(set, r, c),
{
    assert(seq![c].drop_last() =~= seq![]);
    assert(steps(set, r, seq![]) == Some(r));
}

proof fn lemma_run(set: Setting, r: Recorder, k: Kernel, n: u32, s: Stage)
    requires
        r.open,
        r.bound matches Some(b) && may_bind(set, k, b) && in_turn(set, r, k, b) && items(set, k, b)
            <= n * width(k),
        next(at_least_one(set.f.radix_digits), r.written, r.stage, k) == Some(s),
    ensures
        steps(set, r, run(k, n)) == Some(ran(set, r, k, r.bound.unwrap(), s)),
{
    let a = Command::SetPipeline(k);
    let b = Command::Dispatch(n);
    lemma_one(set, r, a);
    lemma_one(set, Recorder { kernel: Some(k), ..r }, b);
    lemma_steps_add(set, r, seq![a], seq![b]);
    assert(run(k, n) =~= seq![a] + seq![b]);
}

/// No pass is open.
pub open spec fn is_closed(r: Recorder) -> bool {
    !r.open && r.kernel is None && r.bound is None
}

proof fn lemma_pass(set: Setting, r: Recorder, p: Pass, b: Binding, body: Seq<Command>, q: Recorder)
    requires
        !r.open,
        steps(set, Recorder { open: true, kernel: None, bound: Some(b), ..r }, body) == Some(q),
        q.open,
    ensures
        steps(set, r, pass(p, b, body)) == Some(
            Recorder { open: false, kernel: None, bound: None, ..q },
        ),
{
    let begin = Command::BeginPass(p);
    let bind = Command::Bind(b);
    let r1 = Recorder { open: true, kernel: None, bound: None, ..r };
    lemma_one(set, r, begin);
    lemma_one(set, r1, bind);
    lemma_steps_add(set, r, seq![begin], seq![bind]);
    let head = seq![begin, bind];
    assert(head =~= seq![begin] + seq![bind]);
    lemma_steps_add(set, r, head, body);
    lemma_steps_add(set, r, head + body, seq![Command::EndPass]);
    lemma_one(set, q, Command::EndPass);
}

proof fn lemma_two(
    set: Setting,
    r: Recorder,
    a: Seq<Command>,
    b: Seq<Command>,
    q: Recorder,
    s: Recorder,
)
    requires
        steps(set, r, a) == Some(q),
        steps(set, q, b) == Some(s),
    ensures
        steps(set, r, a + b) == Some(s),
{
    lemma_steps_add(set, r, a, b);
}

proof fn lemma_enough(f: FrameShape)
    requires
        f.fits(),
    ensures
        f.num_particles <= f.wg64() * 64,
        f.num_particles <= f.wg_n256() * 256,
        f.num_particles * 3 <= f.wg256() * 256,
        f.num_tris <= groups(f.num_tris as int, 64) * 64,
        f.num_distance_constraints <= groups(f.num_distance_constraints as int, 64) * 64,
        f.num_cells <= at_least_one(groups(at_least_one(f.num_cells) as int, 256)) * 256,
{
    law_groups_cover(f.num_particles as int, 64);
    law_groups_cover(f.num_particles as int, 256);
    law_groups_cover(f.num_particles * 3, 256);
    law_groups_cover(f.num_tris as int, 64);
    law_groups_cover(f.num_distance_constraints as int, 64);
    law_groups_cover(at_least_one(f.num_cells) as int, 256);
}

proof fn lemma_integrate(set: Setting, r: Recorder)
    requires
        set.f.fits(),
        is_closed(r),
        r.stage is Settled,
    ensures
        steps(set, r, integrate(set.f, set.base)) == Some(
            Recorder {
                stage: Stage::Seeded,
                current: buffer_out(set.base),
                next_batch: set.batches,
                ..r
            },
        ),
{
    lemma_enough(set.f);
    let q = Recorder { open: true, bound: Some(set.base), ..r };
    let k = Kernel::PredictCopySimToJac;
    lemma_run(set, q, k, set.f.wg64(), Stage::Seeded);
    lemma_pass(
        set,
        r,
        Pass::IntegrateJacSeed,
        set.base,
        run(k, set.f.wg64()),
        ran(set, q, k, set.base, Stage::Seeded),
    );
}

proof fn lemma_take_over(set: Setting, r: Recorder, collide: bool)
    requires
        set.f.fits(),
        is_closed(r),
        r.stage is Seeded || r.stage is Solving,
        all_empty(set, r.next_batch, set.batches),
        buffer_in(set.solved) == r.current,
    ensures
        steps(set, r, take_over(set.f, set.base, set.solved, collide)) == Some(
            Recorder {
                stage: if collide {
                    Stage::Sorted(0)
                } else {
                    Stage::TakenOver
                },
                ..r
            },
        ),
{
    let f = set.f;
    lemma_enough(f);
    let q = Recorder { open: true, bound: Some(set.solved), ..r };
    let copy = run(Kernel::CopyJacToSim, f.wg64());
    let q1 = ran(set, q, Kernel::CopyJacToSim, set.solved, Stage::TakenOver);
    lemma_run(set, q, Kernel::CopyJacToSim, f.wg64(), Stage::TakenOver);
    if collide {
        let bind = seq![Command::Bind(set.base)];
        let clear = run(Kernel::ClearAtomics, f.wg256());
        let perm = run(Kernel::CollPermIdentityPing, f.wg_n256());
        let q2 = Recorder { bound: Some(set.base), ..q1 };
        lemma_one(set, q1, Command::Bind(set.base));
        lemma_two(set, q, copy, bind, q1, q2);
        let q3 = ran(set, q2, Kernel::ClearAtomics, set.base, Stage::Cleared);
        lemma_run(set, q2, Kernel::ClearAtomics, f.wg256(), Stage::Cleared);
        lemma_two(set, q, copy + bind, clear, q2, q3);
        lemma_one(set, q3, Command::Bind(set.base));
        lemma_two(set, q, copy + bind + clear, bind, q3, q3);
        let q4 = ran(set, q3, Kernel::CollPermIdentityPing, set.base, Stage::Sorted(0));
        lemma_run(set, q3, Kernel::CollPermIdentityPing, f.wg_n256(), Stage::Sorted(0));
        lemma_two(set, q, copy + bind + clear + bind, perm, q3, q4);
        lemma_pass(
            set,
            r,
            Pass::CollisionVelocity,
            set.solved,
            copy + bind + clear + bind + perm,
            q4,
        );
    } else {
        lemma_pass(set, r, Pass::CollisionVelocity, set.solved, copy, q1);
    }
}

proof fn lemma_radix_pass(set: Setting, r: Recorder, d: u32)
    requires
        set.f.fits(),
        is_closed(r),
        r.stage == Stage::Sorted(d),
        d < at_least_one(set.f.radix_digits),
    ensures
        steps(set, r, radix_pass(set.f, set.base, d)) == Some(
            Recorder { stage: Stage::Sorted((d + 1) as u32), written: Some(d), ..r },
        ),
{
    let f = set.f;
    lemma_enough(f);
    let w = Recorder { written: Some(d), ..r };
    lemma_one(set, r, Command::WriteRadixPass(d));
    let q = Recorder { open: true, bound: Some(set.base), ..w };
    let a = run(Kernel::CollHistogramClear, 1);
    let b = run(Kernel::CollRadixDigitCount, f.wg_n256());
    let c = run(Kernel::CollRadixExclusiveBasesHeads, 1);
    let e = run(Kernel::CollRadixDigitScatter, f.wg_n256());
    let q1 = ran(set, q, Kernel::CollHistogramClear, set.base, Stage::Emptied(d));
    let q2 = ran(set, q1, Kernel::CollRadixDigitCount, set.base, Stage::Counted(d));
    let q3 = ran(set, q2, Kernel::CollRadixExclusiveBasesHeads, set.base, Stage::Based(d));
    let q4 = ran(set, q3, Kernel::CollRadixDigitScatter, set.base, Stage::Sorted((d + 1) as u32));
    lemma_run(set, q, Kernel::CollHistogramClear, 1, Stage::Emptied(d));
    lemma_run(set, q1, Kernel::CollRadixDigitCount, f.wg_n256(), Stage::Counted(d));
    lemma_run(set, q2, Kernel::CollRadixExclusiveBasesHeads, 1, Stage::Based(d));
    lemma_run(set, q3, Kernel::CollRadixDigitScatter, f.wg_n256(), Stage::Sorted((d + 1) as u32));
    lemma_two(set, q, a, b, q1, q2);
    lemma_two(set, q, a + b, c, q2, q3);
    lemma_two(set, q, a + b + c, e, q3, q4);
    lemma_pass(set, w, Pass::CollisionRadix, set.base, a + b + c + e, q4);
    lemma_steps_add(
        set,
        r,
        seq![Command::WriteRadixPass(d)],
        pass(Pass::CollisionRadix, set.base, a + b + c + e),
    );
}

proof fn lemma_radix_passes(set: Setting, r: Recorder, d: int)
    requires
        set.f.fits(),
        is_closed(r),
        r.stage == Stage::Sorted(0),
        0 <= d <= at_least_one(set.f.radix_digits),
    ensures
        steps(set, r, radix_passes(set.f, set.base, d)) matches Some(q) && q == (Recorder {
            stage: Stage::Sorted(d as u32),
            written: q.written,
            ..r
        }),
    decreases d,
{
    if d > 0 {
        lemma_radix_passes(set, r, d - 1);
        let before = radix_passes(set.f, set.base, d - 1);
        let q = steps(set, r, before).unwrap();
        lemma_radix_pass(set, q, (d - 1) as u32);
        lemma_steps_add(set, r, before, radix_pass(set.f, set.base, (d - 1) as u32));
    }
}

proof fn lemma_narrow_phase(set: Setting, r: Recorder)
    requires
        set.f.fits(),
        is_closed(r),
        r.stage == Stage::Sorted(at_least_one(set.f.radix_digits)),
    ensures
        steps(set, r, narrow_phase(set.f, set.base)) == Some(
            Recorder { stage: Stage::Moved, collisions: r.collisions + 1, ..r },
        ),
{
    let f = set.f;
    lemma_enough(f);
    let n = at_least_one(groups(at_least_one(f.num_cells) as int, 256));
    let q = Recorder { open: true, bound: Some(set.base), ..r };
    let a = run(Kernel::CollCellBoundsClear, n);
    let b = run(Kernel::CollSortedBuildCellRanges, f.wg_n256());
    let c = run(Kernel::CollideGridCells, f.wg_n256());
    let e = run(Kernel::CollideApply, f.wg64());
    let q1 = ran(set, q, Kernel::CollCellBoundsClear, set.base, Stage::Bounded);
    let q2 = ran(set, q1, Kernel::CollSortedBuildCellRanges, set.base, Stage::Ranged);
    let q3 = ran(set, q2, Kernel::CollideGridCells, set.base, Stage::Collected);
    let q4 = ran(set, q3, Kernel::CollideApply, set.base, Stage::Moved);
    lemma_run(set, q, Kernel::CollCellBoundsClear, n, Stage::Bounded);
    lemma_run(set, q1, Kernel::CollSortedBuildCellRanges, f.wg_n256(), Stage::Ranged);
    lemma_run(set, q2, Kernel::CollideGridCells, f.wg_n256(), Stage::Collected);
    lemma_run(set, q3, Kernel::CollideApply, f.wg64(), Stage::Moved);
    lemma_two(set, q, a, b, q1, q2);
    lemma_two(set, q, a + b, c, q2, q3);
    lemma_two(set, q, a + b + c, e, q3, q4);
    lemma_pass(set, r, Pass::CollisionGridNarrow, set.base, a + b + c + e, q4);
}

proof fn lemma_tail(set: Setting, r: Recorder, si: int)
    requires
        set.f.fits(),
        is_closed(r),
        r.stage is Seeded || r.stage is Solving,
        all_empty(set, r.next_batch, set.batches),
        buffer_in(set.solved) == r.current,
    ensures
        steps(set, r, substep_tail(set.f, set.base, set.solved, si)) matches Some(q) && q
            == (Recorder {
            stage: Stage::Settled,
            written: q.written,
            substeps: r.substeps + 1,
            collisions: r.collisions + if set.f.collides_in(si) {
                1int
            } else {
                0
            },
            ..r
        }),
{
    let f = set.f;
    let due = f.collides_in(si);
    lemma_enough(f);
    lemma_take_over(set, r, due);
    let a = take_over(f, set.base, set.solved, due);
    let b = collisions(f, set.base, due);
    let k = Kernel::PostVelocity;
    let c = pass(Pass::PostVelocity, set.base, run(k, f.wg64()));
    let r1 = steps(set, r, a).unwrap();
    if due {
        let digits = at_least_one(f.radix_digits) as int;
        lemma_radix_passes(set, r1, digits);
        let q = steps(set, r1, radix_passes(f, set.base, digits)).unwrap();
        lemma_narrow_phase(set, q);
        lemma_steps_add(
            set,
            r1,
            radix_passes(f, set.base, digits),
            narrow_phase(f, set.base),
        );
    }
    let r2 = steps(set, r1, b).unwrap();
    lemma_steps_add(set, r, a, b);
    let q = Recorder { open: true, bound: Some(set.base), ..r2 };
    lemma_run(set, q, k, f.wg64(), Stage::Settled);
    lemma_pass(
        set,
        r2,
        Pass::PostVelocity,
        set.base,
        run(k, f.wg64()),
        ran(set, q, k, set.base, Stage::Settled),
    );
    lemma_steps_add(set, r, a + b, c);
}

/// The constraints are solved so many times more than before, and nothing else is done.
pub open spec fn only_solved(set: Setting, r: Recorder, q: Recorder, n: int) -> bool {
    &&& q.stage is Seeded || q.stage is Solving
    &&& all_empty(set, q.next_batch, set.batches)
    &&& buffer_in(set.solved) == q.current
    &&& q == (Recorder {
        stage: q.stage,
        current: q.current,
        next_batch: q.next_batch,
        iterations: r.iterations + n,
        ..r
    })
}

/// The commands solve all constraints `n` times between the prediction and the end of a substep, batch
/// after batch, and do nothing else.
pub open spec fn only_solves(set: Setting, distance: Seq<Command>, n: int) -> bool {
    forall|r: Recorder|
        is_closed(r) && r.stage is Seeded && r.next_batch == set.batches && r.current == buffer_out(
            set.base,
        ) ==> (#[trigger] steps(set, r, distance) matches Some(q) && only_solved(set, r, q, n))
}

proof fn lemma_substeps(set: Setting, r: Recorder, distance: Seq<Command>, n: int, k: int)
    requires
        set.f.fits(),
        only_solves(set, distance, n),
        is_closed(r),
        r.stage is Settled,
        0 <= k,
    ensures
        steps(set, r, substeps(set.f, set.base, set.solved, distance, k)) matches Some(q) && q
            == (Recorder {
            written: q.written,
            current: q.current,
            next_batch: q.next_batch,
            iterations: r.iterations + k * n,
            substeps: r.substeps + k,
            collisions: r.collisions + collision_count(set.f, k),
            ..r
        }),
    decreases k,
{
    assert(0 * n == 0);
    if k > 0 {
        lemma_substeps(set, r, distance, n, k - 1);
        assert((k - 1) * n + n == k * n) by (nonlinear_arith);
        let f = set.f;
        let before = substeps(f, set.base, set.solved, distance, k - 1);
        let first = integrate(f, set.base);
        let tail = substep_tail(f, set.base, set.solved, k - 1);
        let q = steps(set, r, before).unwrap();
        lemma_integrate(set, q);
        let q1 = Recorder {
            stage: Stage::Seeded,
            current: buffer_out(set.base),
            next_batch: set.batches,
            ..q
        };
        lemma_two(set, r, before, first, q, q1);
        assert(steps(set, q1, distance) is Some);
        let q2 = steps(set, q1, distance).unwrap();
        lemma_two(set, r, before + first, distance, q1, q2);
        lemma_tail(set, q2, k - 1);
        let q3 = steps(set, q2, tail).unwrap();
        lemma_two(set, r, before + first + distance, tail, q2, q3);
    }
}

/// The commands of a frame are in place, one and all. The frame runs all substeps, each with all
/// iterations over the constraints, resolves collisions in those in which they are due, and ends when
/// it can be drawn.
pub proof fn law_frame_order(set: Setting, r: Recorder, distance: Seq<Command>, n: int)
    requires
        set.f.fits(),
        only_solves(set, distance, n),
        is_closed(r),
        r.stage is Settled,
    ensures
        steps(set, r, frame(set.f, set.base, set.solved, distance)) matches Some(q) && {
            &&& is_closed(q)
            &&& q.stage is Rendered
            &&& q.substeps == r.substeps + at_least_one(set.f.substeps)
            &&& q.iterations == r.iterations + at_least_one(set.f.substeps) * n
            &&& q.collisions == r.collisions + collision_count(
                set.f,
                at_least_one(set.f.substeps) as int,
            )
        },
{
    let f = set.f;
    let k = at_least_one(f.substeps) as int;
    lemma_enough(f);
    lemma_substeps(set, r, distance, n, k);
    let all = substeps(f, set.base, set.solved, distance, k);
    let r1 = steps(set, r, all).unwrap();
    let q = Recorder { open: true, bound: Some(set.base), ..r1 };
    let wt = groups(f.num_tris as int, 64);
    let a = run(Kernel::ClearNormAtomics, f.wg256());
    let bind = seq![Command::Bind(set.base)];
    let b = run(Kernel::AccumulateNormals, wt);
    let c = run(Kernel::FinalizeNormals, f.wg64());
    let q1 = ran(set, q, Kernel::ClearNormAtomics, set.base, Stage::NormalsCleared);
    let q2 = ran(set, q1, Kernel::AccumulateNormals, set.base, Stage::NormalsGathered);
    let q3 = ran(set, q2, Kernel::FinalizeNormals, set.base, Stage::Rendered);
    lemma_run(set, q, Kernel::ClearNormAtomics, f.wg256(), Stage::NormalsCleared);
    lemma_one(set, q1, Command::Bind(set.base));
    lemma_run(set, q1, Kernel::AccumulateNormals, wt, Stage::NormalsGathered);
    lemma_one(set, q2, Command::Bind(set.base));
    lemma_run(set, q2, Kernel::FinalizeNormals, f.wg64(), Stage::Rendered);
    lemma_two(set, q, a, bind, q1, q1);
    lemma_two(set, q, a + bind, b, q1, q2);
    lemma_two(set, q, a + bind + b, bind, q2, q2);
    lemma_two(set, q, a + bind + b + bind, c, q2, q3);
    lemma_pass(set, r1, Pass::MeshNormals, set.base, a + bind + b + bind + c, q3);
    lemma_steps_add(set, r, all, normals(f, set.base));
}

/// In the pass of the constraints, `n` iterations after `r`, with the batches before `b` solved.
spec fn solving(set: Setting, r: Recorder, q: Recorder, n: int, b: int) -> bool {
    &&& q.open
    &&& q.stage is Seeded || q.stage is Solving
    &&& all_empty(set, q.next_batch, b)
    &&& q == (Recorder {
        open: true,
        kernel: q.kernel,
        bound: q.bound,
        stage: q.stage,
        current: q.current,
        next_batch: q.next_batch,
        iterations: r.iterations + n,
        ..r
    })
}

/// The offsets divide the constraints into batches whose slots can be bound.
pub open spec fn is_batched(set: Setting) -> bool {
    &&& 0 <= set.batches
    &&& 256 * set.batches <= u32::MAX
    &&& forall|b: int|
        0 <= b < set.batches ==> #[trigger] batch_span(set.offsets, b) + 127 <= u32::MAX
}

proof fn lemma_batches(set: Setting, r: Recorder, q: Recorder, n: int, b: int)
    requires
        is_batched(set),
        solving(set, r, q, n, 0),
        q.stage is Solving,
        q.next_batch == 0,
        q.current is JacState,
        q.kernel == Some(Kernel::GsEdges),
        0 <= b <= set.batches,
    ensures
        steps(set, q, gs_batches(set.offsets, b)) matches Some(s) && solving(set, r, s, n, b)
            && s.current is JacState && s.stage is Solving && 0 <= s.next_batch <= b && s.kernel
            == Some(Kernel::GsEdges),
    decreases b,
{
    if b > 0 {
        let offsets = set.offsets;
        lemma_batches(set, r, q, n, b - 1);
        let before = gs_batches(offsets, b - 1);
        let s = steps(set, q, before).unwrap();
        if batch_span(offsets, b - 1) != 0 {
            let to = Binding::Cloth(slot_offset(b - 1));
            assert(slot_offset(b - 1) == 256 * (b - 1));
            assert(batch_of(to) == b - 1);
            let span = batch_span(offsets, b - 1);
            law_groups_cover(span, 128);
            let bind = Command::Bind(to);
            let go = Command::Dispatch(groups(span, GS_EDGE_THREADS as int));
            let s1 = Recorder { bound: Some(to), ..s };
            lemma_one(set, s, bind);
            lemma_one(set, s1, go);
            lemma_two(
                set,
                s,
                seq![bind],
                seq![go],
                s1,
                ran(set, s1, Kernel::GsEdges, to, Stage::Solving),
            );
            assert(seq![bind] + seq![go] =~= seq![bind, go]);
            lemma_steps_add(set, q, before, seq![bind, go]);
        }
    }
}

proof fn lemma_gs_iteration(set: Setting, r: Recorder, q: Recorder, n: int, batches: u32)
    requires
        set.f.fits(),
        is_batched(set),
        set.batches == batches,
        solving(set, r, q, n, set.batches),
        q.current is JacState,
    ensures
        steps(
            set,
            q,
            gs_iteration(set.f.num_distance_constraints, set.offsets, batches),
        ) matches Some(s) && solving(set, r, s, n + 1, set.batches) && s.current is JacState,
{
    let f = set.f;
    lemma_enough(f);
    let to = Binding::Cloth(0);
    let bind = Command::Bind(to);
    let wg = groups(f.num_distance_constraints as int, 64);
    let clear = run(Kernel::ClearConstraintLambda, wg);
    let pick = Command::SetPipeline(Kernel::GsEdges);
    let q1 = Recorder { bound: Some(to), ..q };
    let q2 = ran(set, q1, Kernel::ClearConstraintLambda, to, Stage::Solving);
    let q3 = Recorder { kernel: Some(Kernel::GsEdges), ..q2 };
    lemma_one(set, q, bind);
    lemma_run(set, q1, Kernel::ClearConstraintLambda, wg, Stage::Solving);
    lemma_one(set, q2, pick);
    lemma_two(set, q, seq![bind], clear, q1, q2);
    lemma_two(set, q, seq![bind] + clear, seq![pick], q2, q3);
    lemma_batches(set, r, q3, n + 1, set.batches);
    lemma_steps_add(
        set,
        q,
        seq![bind] + clear + seq![pick],
        gs_batches(set.offsets, batches as int),
    );
}

proof fn lemma_gs_iterations(set: Setting, r: Recorder, q: Recorder, batches: u32, k: int)
    requires
        set.f.fits(),
        is_batched(set),
        set.batches == batches,
        solving(set, r, q, 0, set.batches),
        q.current is JacState,
        0 <= k,
    ensures
        steps(
            set,
            q,
            gs_iterations(set.f.num_distance_constraints, set.offsets, batches, k),
        ) matches Some(s) && solving(set, r, s, k, set.batches) && s.current is JacState,
    decreases k,
{
    if k > 0 {
        let n = set.f.num_distance_constraints;
        lemma_gs_iterations(set, r, q, batches, k - 1);
        let before = gs_iterations(n, set.offsets, batches, k - 1);
        let s = steps(set, q, before).unwrap();
        lemma_gs_iteration(set, r, s, k - 1, batches);
        lemma_steps_add(set, q, before, gs_iteration(n, set.offsets, batches));
    }
}

proof fn lemma_in_pass(set: Setting, r: Recorder, p: Pass, body: Seq<Command>, n: int)
    requires
        is_closed(r),
        r.stage is Seeded,
        ({
            let q = Recorder { open: true, kernel: None, bound: None, ..r };
            steps(set, q, body) matches Some(s) && solving(set, r, s, n, set.batches) && buffer_in(
                set.solved,
            ) == s.current
        }),
    ensures
        steps(set, r, seq![Command::BeginPass(p)] + body + seq![Command::EndPass]) matches Some(t)
            && only_solved(set, r, t, n),
{
    let q = Recorder { open: true, kernel: None, bound: None, ..r };
    let s = steps(set, q, body).unwrap();
    lemma_one(set, r, Command::BeginPass(p));
    lemma_two(set, r, seq![Command::BeginPass(p)], body, q, s);
    lemma_one(set, s, Command::EndPass);
    lemma_steps_add(set, r, seq![Command::BeginPass(p)] + body, seq![Command::EndPass]);
}

/// The commands of the Gauss-Seidel solver solve all constraints as often as there are iterations: each
/// iteration clears the multipliers, and then solves every batch that has constraints, in turn and with
/// workgroups for all of them.
pub proof fn law_gs_only_solves(set: Setting, batches: u32)
    requires
        set.f.fits(),
        is_batched(set),
        set.batches == batches,
        set.base is Cloth,
        set.solved is Cloth,
    ensures
        only_solves(
            set,
            gs_distance(set.f, set.offsets, batches),
            if set.f.num_distance_constraints > 0 && batches > 0 {
                at_least_one(set.f.inner_iterations) as int
            } else {
                0
            },
        ),
{
    let distance = gs_distance(set.f, set.offsets, batches);
    let due = set.f.num_distance_constraints > 0 && batches > 0;
    let k = if due {
        at_least_one(set.f.inner_iterations) as int
    } else {
        0
    };
    assert forall|r: Recorder|
        is_closed(r) && r.stage is Seeded && r.next_batch == set.batches && r.current == buffer_out(
            set.base,
        ) implies (#[trigger] steps(set, r, distance) matches Some(t) && only_solved(set, r, t, k)) by {
        if due {
            let q = Recorder { open: true, kernel: None, bound: None, ..r };
            lemma_gs_iterations(set, r, q, batches, k);
            lemma_in_pass(
                set,
                r,
                Pass::DistanceGaussSeidel,
                gs_iterations(set.f.num_distance_constraints, set.offsets, batches, k),
                k,
            );
        }
    }
}

proof fn lemma_jacobi_iterations(set: Setting, r: Recorder, q: Recorder, k: int)
    requires
        set.f.fits(),
        set.batches == 0,
        solving(set, r, q, 0, 0),
        q.next_batch == 0,
        q.current == solved_in(0),
        0 <= k,
    ensures
        steps(set, q, jacobi_iterations(set.f, k)) matches Some(s) && solving(set, r, s, k, 0)
            && s.next_batch == 0 && s.current == solved_in(k),
    decreases k,
{
    if k > 0 {
        let f = set.f;
        lemma_enough(f);
        lemma_jacobi_iterations(set, r, q, k - 1);
        let before = jacobi_iterations(f, k - 1);
        let s = steps(set, q, before).unwrap();
        let n = groups(f.num_distance_constraints as int, 64);
        let to = iteration_binding(k - 1);
        law_iterations_alternate(k - 1);
        let bind = seq![Command::Bind(to)];
        let a = run(Kernel::ClearConstraintLambda, n);
        let b = run(Kernel::JacobiEdges, n);
        let c = run(Kernel::JacobiGather, f.wg64());
        let s1 = Recorder { bound: Some(to), ..s };
        let s2 = ran(set, s1, Kernel::ClearConstraintLambda, to, Stage::Solving);
        let s3 = ran(set, s2, Kernel::JacobiEdges, to, Stage::Corrected);
        let s4 = ran(set, s3, Kernel::JacobiGather, to, Stage::Solving);
        lemma_one(set, s, Command::Bind(to));
        lemma_run(set, s1, Kernel::ClearConstraintLambda, n, Stage::Solving);
        lemma_run(set, s2, Kernel::JacobiEdges, n, Stage::Corrected);
        lemma_run(set, s3, Kernel::JacobiGather, f.wg64(), Stage::Solving);
        lemma_two(set, s, bind, a, s1, s2);
        lemma_two(set, s, bind + a, b, s2, s3);
        lemma_two(set, s, bind + a + b, c, s3, s4);
        lemma_steps_add(set, q, before, jacobi_iteration(f, k - 1));
    }
}

/// The commands of the Jacobi solver solve all constraints as often as there are iterations: each
/// iteration clears the multipliers, computes all corrections and applies them.
pub proof fn law_jacobi_only_solves(set: Setting)
    requires
        set.f.fits(),
        set.batches == 0,
        set.base == Binding::Base,
        set.solved == copy_binding(set.f),
    ensures
        only_solves(
            set,
            jacobi_distance(set.f),
            if set.f.num_distance_constraints > 0 {
                at_least_one(set.f.inner_iterations) as int
            } else {
                0
            },
        ),
{
    let distance = jacobi_distance(set.f);
    law_last_iteration_is_taken_over(set.f);
    let due = set.f.num_distance_constraints > 0;
    let k = if due {
        at_least_one(set.f.inner_iterations) as int
    } else {
        0
    };
    assert forall|r: Recorder|
        is_closed(r) && r.stage is Seeded && r.next_batch == set.batches && r.current == buffer_out(
            set.base,
        ) implies (#[trigger] steps(set, r, distance) matches Some(t) && only_solved(set, r, t, k)) by {
        if due {
            let q = Recorder { open: true, kernel: None, bound: None, ..r };
            lemma_jacobi_iterations(set, r, q, k);
            lemma_in_pass(set, r, Pass::DistanceJacobi, jacobi_iterations(set.f, k), k);
        }
    }
}

/// The commands of a frame are in place and the frame can be drawn: all substeps ran, with so many
/// iterations over the constraints in all, and with collisions where they are due.
pub open spec fn runs_through(set: Setting, r: Recorder, commands: Seq<Command>, n: int) -> bool {
    let s = at_least_one(set.f.substeps) as int;
    steps(set, r, commands) matches Some(q) && {
        &&& is_closed(q)
        &&& q.stage is Rendered
        &&& q.substeps == r.substeps + s
        &&& q.iterations == r.iterations + s * n
        &&& q.collisions == r.collisions + collision_count(set.f, s)
    }
}

/// A frame of the Gauss-Seidel solver runs through, with all iterations in every substep.
pub proof fn law_gs_frame_runs_through(f: FrameShape, offsets: Seq<u32>, batches: u32, r: Recorder)
    requires
        f.fits(),
        is_closed(r),
        r.stage is Settled,
        ({
            let base = Binding::Cloth(0);
            is_batched(Setting { f, base, solved: base, offsets, batches: batches as int })
        }),
        f.num_distance_constraints > 0,
        batches > 0,
    ensures
        ({
            let base = Binding::Cloth(0);
            runs_through(
                Setting { f, base, solved: base, offsets, batches: batches as int },
                r,
                frame(f, base, base, gs_distance(f, offsets, batches)),
                at_least_one(f.inner_iterations) as int,
            )
        }),
{
    let base = Binding::Cloth(0);
    let set = Setting { f, base, solved: base, offsets, batches: batches as int };
    law_gs_only_solves(set, batches);
    law_frame_order(
        set,
        r,
        gs_distance(f, offsets, batches),
        at_least_one(f.inner_iterations) as int,
    );
}

/// A frame of the Jacobi solver runs through, with all iterations in every substep. Each iteration
/// reads what the one before wrote, and what the last one wrote is taken over.
pub proof fn law_jacobi_frame_runs_through(f: FrameShape, r: Recorder)
    requires
        f.fits(),
        is_closed(r),
        r.stage is Settled,
    ensures
        runs_through(
            Setting {
                f,
                base: Binding::Base,
                solved: copy_binding(f),
                offsets: Seq::empty(),
                batches: 0,
            },
            r,
            frame(f, Binding::Base, copy_binding(f), jacobi_distance(f)),
            if f.num_distance_constraints > 0 {
                at_least_one(f.inner_iterations) as int
            } else {
                0
            },
        ),
{
    let set = Setting {
        f,
        base: Binding::Base,
        solved: copy_binding(f),
        offsets: Seq::empty(),
        batches: 0,
    };
    law_jacobi_only_solves(set);
    law_frame_order(
        set,
        r,
        jacobi_distance(f),
        if f.num_distance_constraints > 0 {
            at_least_one(f.inner_iterations) as int
        } else {
            0
        },
    );
}

} // verus!
