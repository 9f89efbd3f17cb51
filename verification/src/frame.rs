//! The commands of a frame, as they are recorded for the device.

use vstd::prelude::*;

verus! {

/// A compute kernel.
#[derive(Clone, Copy, Debug, PartialEq, Eq, Structural)]
pub enum Kernel {
    PredictCopySimToJac,
    CopyJacToSim,
    ClearConstraintLambda,
    GsEdges,
    JacobiEdges,
    JacobiGather,
    PostVelocity,
    ClearAtomics,
    CollCellBoundsClear,
    CollPermIdentityPing,
    CollHistogramClear,
    CollRadixDigitCount,
    CollRadixExclusiveBasesHeads,
    CollRadixDigitScatter,
    CollSortedBuildCellRanges,
    CollideGridCells,
    CollideApply,
    ClearNormAtomics,
    AccumulateNormals,
    FinalizeNormals,
}

/// A compute pass.
#[derive(Clone, Copy, Debug, PartialEq, Eq, Structural)]
pub enum Pass {
    IntegrateJacSeed,
    DistanceGaussSeidel,
    DistanceJacobi,
    CollisionVelocity,
    CollisionRadix,
    CollisionGridNarrow,
    PostVelocity,
    MeshNormals,
}

/// A set of buffers that kernels are bound to.
#[derive(Clone, Copy, Debug, PartialEq, Eq, Structural)]
pub enum Binding {
    /// The buffers of the Gauss-Seidel solver, with the offset of the dynamic uniform.
    Cloth(u32),
    /// Reads A, writes B.
    Base,
    /// Reads B, writes A.
    JacBToA,
    /// Reads A, writes B.
    JacAToB,
    /// Reads A.
    CopyFromA,
    /// Reads B.
    CopyFromB,
}

#[derive(Clone, Copy, Debug, PartialEq, Eq, Structural)]
pub enum Command {
    BeginPass(Pass),
    EndPass,
    Bind(Binding),
    SetPipeline(Kernel),
    /// So many workgroups along X.
    Dispatch(u32),
    /// Puts the number of the radix pass into its uniform.
    WriteRadixPass(u32),
}

impl Kernel {
    /// The name of the entry point.
    pub fn entry_point(self) -> (r: &'static str)
        ensures
            r@ == self.entry_name(),
    {
        match self {
            Kernel::PredictCopySimToJac => "predict_copy_sim_to_jac",
            Kernel::CopyJacToSim => "copy_jac_to_sim",
            Kernel::ClearConstraintLambda => "clear_constraint_lambda",
            Kernel::GsEdges => "gs_edges",
            Kernel::JacobiEdges => "jacobi_edges",
            Kernel::JacobiGather => "jacobi_gather",
            Kernel::PostVelocity => "post_velocity",
            Kernel::ClearAtomics => "clear_atomics",
            Kernel::CollCellBoundsClear => "coll_cell_bounds_clear",
            Kernel::CollPermIdentityPing => "coll_perm_identity_ping",
            Kernel::CollHistogramClear => "coll_histogram_clear",
            Kernel::CollRadixDigitCount => "coll_radix_digit_count",
            Kernel::CollRadixExclusiveBasesHeads => "coll_radix_exclusive_bases_heads",
            Kernel::CollRadixDigitScatter => "coll_radix_digit_scatter",
            Kernel::CollSortedBuildCellRanges => "coll_sorted_build_cell_ranges",
            Kernel::CollideGridCells => "collide_grid_cells",
            Kernel::CollideApply => "collide_apply",
            Kernel::ClearNormAtomics => "clear_norm_atomics",
            Kernel::AccumulateNormals => "accumulate_normals",
            Kernel::FinalizeNormals => "finalize_normals",
        }
    }

    pub open spec fn entry_name(self) -> Seq<char> {
        match self {
            Kernel::PredictCopySimToJac => "predict_copy_sim_to_jac"@,
            Kernel::CopyJacToSim => "copy_jac_to_sim"@,
            Kernel::ClearConstraintLambda => "clear_constraint_lambda"@,
            Kernel::GsEdges => "gs_edges"@,
            Kernel::JacobiEdges => "jacobi_edges"@,
            Kernel::JacobiGather => "jacobi_gather"@,
            Kernel::PostVelocity => "post_velocity"@,
            Kernel::ClearAtomics => "clear_atomics"@,
            Kernel::CollCellBoundsClear => "coll_cell_bounds_clear"@,
            Kernel::CollPermIdentityPing => "coll_perm_identity_ping"@,
            Kernel::CollHistogramClear => "coll_histogram_clear"@,
            Kernel::CollRadixDigitCount => "coll_radix_digit_count"@,
            Kernel::CollRadixExclusiveBasesHeads => "coll_radix_exclusive_bases_heads"@,
            Kernel::CollRadixDigitScatter => "coll_radix_digit_scatter"@,
            Kernel::CollSortedBuildCellRanges => "coll_sorted_build_cell_ranges"@,
            Kernel::CollideGridCells => "collide_grid_cells"@,
            Kernel::CollideApply => "collide_apply"@,
            Kernel::ClearNormAtomics => "clear_norm_atomics"@,
            Kernel::AccumulateNormals => "accumulate_normals"@,
            Kernel::FinalizeNormals => "finalize_normals"@,
        }
    }
}

impl Pass {
    /// The label of the pass in a capture.
    pub fn label(self) -> (r: &'static str)
        ensures
            r@ == self.label_text(),
    {
        match self {
            Pass::IntegrateJacSeed => "cloth_pass_integrate_jac_seed",
            Pass::DistanceGaussSeidel => "cloth_pass_distance_gauss_seidel",
            Pass::DistanceJacobi => "cloth_pass_distance_jacobi",
            Pass::CollisionVelocity => "cloth_pass_collision_velocity",
            Pass::CollisionRadix => "cloth_pass_collision_radix",
            Pass::CollisionGridNarrow => "cloth_pass_collision_grid_narrow",
            Pass::PostVelocity => "cloth_pass_post_velocity",
            Pass::MeshNormals => "cloth_pass_mesh_normals",
        }
    }

    pub open spec fn label_text(self) -> Seq<char> {
        match self {
            Pass::IntegrateJacSeed => "cloth_pass_integrate_jac_seed"@,
            Pass::DistanceGaussSeidel => "cloth_pass_distance_gauss_seidel"@,
            Pass::DistanceJacobi => "cloth_pass_distance_jacobi"@,
            Pass::CollisionVelocity => "cloth_pass_collision_velocity"@,
            Pass::CollisionRadix => "cloth_pass_collision_radix"@,
            Pass::CollisionGridNarrow => "cloth_pass_collision_grid_narrow"@,
            Pass::PostVelocity => "cloth_pass_post_velocity"@,
            Pass::MeshNormals => "cloth_pass_mesh_normals"@,
        }
    }
}

/// What the length of a frame depends on. Counts of zero stand for one where the fields say so.
#[derive(Clone, Copy)]
pub struct FrameShape {
    pub num_particles: u32,
    pub num_tris: u32,
    pub num_distance_constraints: u32,
    /// Zero stands for one.
    pub num_cells: u32,
    /// Zero stands for one.
    pub radix_digits: u32,
    /// Zero stands for one.
    pub substeps: u32,
    /// Zero stands for one.
    pub inner_iterations: u32,
    /// Collisions are resolved in the last of every so many substeps. Zero stands for one.
    pub collision_every: u32,
    /// Whether collisions are resolved at all.
    pub collisions: bool,
}

pub open spec fn at_least_one(n: u32) -> u32 {
    if n == 0 {
        1
    } else {
        n
    }
}

/// The number of workgroups of `width` that cover `n` items.
pub open spec fn groups(n: int, width: int) -> u32 {
    ((n + width - 1) / width) as u32
}

impl FrameShape {
    /// The numbers of workgroups are computed without overflow.
    pub open spec fn fits(&self) -> bool {
        &&& self.num_particles * 3 + 255 <= u32::MAX
        &&& self.num_tris + 63 <= u32::MAX
        &&& self.num_distance_constraints + 63 <= u32::MAX
        &&& self.num_cells + 255 <= u32::MAX
    }

    /// Whether the numbers of workgroups are computed without overflow.
    pub fn check_fits(&self) -> (r: bool)
        ensures
            r == self.fits(),
    {
        self.num_particles <= (u32::MAX - 255) / 3 && self.num_tris <= u32::MAX - 63
            && self.num_distance_constraints <= u32::MAX - 63 && self.num_cells <= u32::MAX - 255
    }

    /// Collisions are resolved in substep `si`.
    pub open spec fn collides_in(&self, si: int) -> bool {
        let every = at_least_one(self.collision_every) as int;
        self.collisions && si % every == every - 1
    }

    /// Workgroups of 64 for all particles.
    pub open spec fn wg64(&self) -> u32 {
        groups(self.num_particles as int, 64)
    }

    /// Workgroups of 256 for all particles, at least one.
    pub open spec fn wg_n256(&self) -> u32 {
        at_least_one(groups(self.num_particles as int, 256))
    }

    /// Workgroups of 256 for three values of all particles.
    pub open spec fn wg256(&self) -> u32 {
        groups(self.num_particles * 3, 256)
    }
}

/// Runs a kernel.
pub open spec fn run(k: Kernel, groups: u32) -> Seq<Command> {
    seq![Command::SetPipeline(k), Command::Dispatch(groups)]
}

/// A pass that binds its buffers and then does `body`.
pub open spec fn pass(p: Pass, b: Binding, body: Seq<Command>) -> Seq<Command> {
    seq![Command::BeginPass(p), Command::Bind(b)] + body + seq![Command::EndPass]
}

/// Predicts the positions.
pub open spec fn integrate(f: FrameShape, base: Binding) -> Seq<Command> {
    pass(Pass::IntegrateJacSeed, base, run(Kernel::PredictCopySimToJac, f.wg64()))
}

/// Takes over the solved positions, and prepares the broad phase where collisions are due.
pub open spec fn take_over(
    f: FrameShape,
    base: Binding,
    solved: Binding,
    collide: bool,
) -> Seq<Command> {
    let head = run(Kernel::CopyJacToSim, f.wg64());
    pass(
        Pass::CollisionVelocity,
        solved,
        if collide {
            head + seq![Command::Bind(base)] + run(Kernel::ClearAtomics, f.wg256()) + seq![
                Command::Bind(base),
            ] + run(Kernel::CollPermIdentityPing, f.wg_n256())
        } else {
            head
        },
    )
}

/// One radix pass.
pub open spec fn radix_pass(f: FrameShape, base: Binding, d: u32) -> Seq<Command> {
    seq![Command::WriteRadixPass(d)] + pass(
        Pass::CollisionRadix,
        base,
        run(Kernel::CollHistogramClear, 1) + run(Kernel::CollRadixDigitCount, f.wg_n256()) + run(
            Kernel::CollRadixExclusiveBasesHeads,
            1,
        ) + run(Kernel::CollRadixDigitScatter, f.wg_n256()),
    )
}

/// The first `d` radix passes.
pub open spec fn radix_passes(f: FrameShape, base: Binding, d: int) -> Seq<Command>
    decreases d,
{
    if d <= 0 {
        seq![]
    } else {
        radix_passes(f, base, d - 1) + radix_pass(f, base, (d - 1) as u32)
    }
}

/// Finds the pairs that collide, and moves their particles apart.
pub open spec fn narrow_phase(f: FrameShape, base: Binding) -> Seq<Command> {
    pass(
        Pass::CollisionGridNarrow,
        base,
        run(
            Kernel::CollCellBoundsClear,
            at_least_one(groups(at_least_one(f.num_cells) as int, 256)),
        ) + run(Kernel::CollSortedBuildCellRanges, f.wg_n256()) + run(
            Kernel::CollideGridCells,
            f.wg_n256(),
        ) + run(Kernel::CollideApply, f.wg64()),
    )
}

/// Resolves collisions where they are due.
pub open spec fn collisions(f: FrameShape, base: Binding, collide: bool) -> Seq<Command> {
    if collide {
        radix_passes(f, base, at_least_one(f.radix_digits) as int) + narrow_phase(f, base)
    } else {
        seq![]
    }
}

/// What follows the constraints in substep `si`.
pub open spec fn substep_tail(
    f: FrameShape,
    base: Binding,
    solved: Binding,
    si: int,
) -> Seq<Command> {
    take_over(f, base, solved, f.collides_in(si)) + collisions(f, base, f.collides_in(si)) + pass(
        Pass::PostVelocity,
        base,
        run(Kernel::PostVelocity, f.wg64()),
    )
}

/// The first `k` substeps; `distance` solves the constraints of one.
pub open spec fn substeps(
    f: FrameShape,
    base: Binding,
    solved: Binding,
    distance: Seq<Command>,
    k: int,
) -> Seq<Command>
    decreases k,
{
    if k <= 0 {
        seq![]
    } else {
        substeps(f, base, solved, distance, k - 1) + integrate(f, base) + distance + substep_tail(
            f,
            base,
            solved,
            k - 1,
        )
    }
}

/// Computes the normals of the moved mesh.
pub open spec fn normals(f: FrameShape, base: Binding) -> Seq<Command> {
    pass(
        Pass::MeshNormals,
        base,
        run(Kernel::ClearNormAtomics, f.wg256()) + seq![Command::Bind(base)] + run(
            Kernel::AccumulateNormals,
            groups(f.num_tris as int, 64),
        ) + seq![Command::Bind(base)] + run(Kernel::FinalizeNormals, f.wg64()),
    )
}

/// A frame: all substeps, then the normals.
pub open spec fn frame(
    f: FrameShape,
    base: Binding,
    solved: Binding,
    distance: Seq<Command>,
) -> Seq<Command> {
    substeps(f, base, solved, distance, at_least_one(f.substeps) as int) + normals(f, base)
}

fn one_at_least(n: u32) -> (r: u32)
    ensures
        r == at_least_one(n),
        r >= 1,
{
    if n == 0 {
        1
    } else {
        n
    }
}

/// The number of workgroups of `width` that cover `n` items.
pub fn group_count(n: u32, width: u32) -> (r: u32)
    requires
        width >= 1,
        n + width - 1 <= u32::MAX,
    ensures
        r == groups(n as int, width as int),
{
    (n + (width - 1)) / width
}

/// Appends the commands that run a kernel.
pub fn push_run(out: &mut Vec<Command>, k: Kernel, groups: u32)
    ensures
        final(out)@ == old(out)@ + run(k, groups),
{
    out.push(Command::SetPipeline(k));
    out.push(Command::Dispatch(groups));
    assert(out@ =~= old(out)@ + run(k, groups));
}

/// Appends the start of a pass.
pub fn push_begin(out: &mut Vec<Command>, p: Pass, b: Binding)
    ensures
        final(out)@ == old(out)@ + seq![Command::BeginPass(p), Command::Bind(b)],
{
    out.push(Command::BeginPass(p));
    out.push(Command::Bind(b));
    assert(out@ =~= old(out)@ + seq![Command::BeginPass(p), Command::Bind(b)]);
}

/// The commands of the copy, the collisions and the velocities of one substep.
fn push_tail(out: &mut Vec<Command>, f: FrameShape, base: Binding, solved: Binding, si: u32)
    requires
        f.fits(),
    ensures
        final(out)@ == old(out)@ + substep_tail(f, base, solved, si as int),
{
    let ghost before = out@;
    let every: u32 = one_at_least(f.collision_every);
    let collide = f.collisions && si % every == every - 1;
    let wg64: u32 = group_count(f.num_particles, 64);
    let wg_n256: u32 = one_at_least(group_count(f.num_particles, 256));
    let wg256: u32 = group_count(f.num_particles * 3, 256);
    push_begin(out, Pass::CollisionVelocity, solved);
    push_run(out, Kernel::CopyJacToSim, wg64);
    if collide {
        out.push(Command::Bind(base));
        push_run(out, Kernel::ClearAtomics, wg256);
        out.push(Command::Bind(base));
        push_run(out, Kernel::CollPermIdentityPing, wg_n256);
    }
    out.push(Command::EndPass);
    assert(out@ =~= before + take_over(f, base, solved, collide));
    let ghost after_copy = out@;
    if collide {
        let digits: u32 = one_at_least(f.radix_digits);
        let mut d: u32 = 0;
        assert(out@ =~= after_copy + radix_passes(f, base, 0));
        while d < digits
            invariant
                d <= digits,
                wg_n256 == f.wg_n256(),
                out@ == after_copy + radix_passes(f, base, d as int),
            decreases digits - d,
        {
            let ghost so_far = out@;
            out.push(Command::WriteRadixPass(d));
            push_begin(out, Pass::CollisionRadix, base);
            push_run(out, Kernel::CollHistogramClear, 1);
            push_run(out, Kernel::CollRadixDigitCount, wg_n256);
            push_run(out, Kernel::CollRadixExclusiveBasesHeads, 1);
            push_run(out, Kernel::CollRadixDigitScatter, wg_n256);
            out.push(Command::EndPass);
            proof {
                assert(out@ =~= so_far + radix_pass(f, base, d));
                assert(out@ =~= after_copy + radix_passes(f, base, d + 1));
            }
            d = d + 1;
        }
        let ghost after_radix = out@;
        let cells: u32 = one_at_least(f.num_cells);
        push_begin(out, Pass::CollisionGridNarrow, base);
        push_run(out, Kernel::CollCellBoundsClear, one_at_least(group_count(cells, 256)));
        push_run(out, Kernel::CollSortedBuildCellRanges, wg_n256);
        push_run(out, Kernel::CollideGridCells, wg_n256);
        push_run(out, Kernel::CollideApply, wg64);
        out.push(Command::EndPass);
        assert(out@ =~= after_radix + narrow_phase(f, base));
    }
    assert(out@ =~= after_copy + collisions(f, base, collide));
    let ghost after_collisions = out@;
    push_begin(out, Pass::PostVelocity, base);
    push_run(out, Kernel::PostVelocity, wg64);
    out.push(Command::EndPass);
    proof {
        assert(out@ =~= after_collisions + pass(
            Pass::PostVelocity,
            base,
            run(Kernel::PostVelocity, wg64),
        ));
        assert(out@ =~= before + substep_tail(f, base, solved, si as int));
    }
}

/// Appends `more`.
pub fn push_all(out: &mut Vec<Command>, more: &Vec<Command>)
    ensures
        final(out)@ == old(out)@ + more@,
{
    let ghost before = out@;
    let mut k: usize = 0;
    while k < more.len()
        invariant
            k <= more@.len(),
            out@ == before + more@.take(k as int),
        decreases more@.len() - k,
    {
        out.push(more[k]);
        assert(out@ =~= before + more@.take(k + 1));
        k = k + 1;
    }
    assert(out@ =~= before + more@);
}

/// The commands of a frame whose constraints `distance` solves in every substep.
pub fn frame_commands(f: FrameShape, base: Binding, solved: Binding, distance: &Vec<Command>) -> (out:
    Vec<Command>)
    requires
        f.fits(),
    ensures
        out@ == frame(f, base, solved, distance@),
{
    let mut out: Vec<Command> = Vec::new();
    let steps: u32 = one_at_least(f.substeps);
    let wg64: u32 = group_count(f.num_particles, 64);
    let mut si: u32 = 0;
    assert(out@ =~= substeps(f, base, solved, distance@, 0));
    while si < steps
        invariant
            si <= steps,
            f.fits(),
            wg64 == f.wg64(),
            out@ == substeps(f, base, solved, distance@, si as int),
        decreases steps - si,
    {
        let ghost before = out@;
        push_begin(&mut out, Pass::IntegrateJacSeed, base);
        push_run(&mut out, Kernel::PredictCopySimToJac, wg64);
        out.push(Command::EndPass);
        assert(out@ =~= before + integrate(f, base));
        push_all(&mut out, distance);
        push_tail(&mut out, f, base, solved, si);
        assert(out@ =~= substeps(f, base, solved, distance@, si + 1));
        si = si + 1;
    }
    let ghost before = out@;
    push_begin(&mut out, Pass::MeshNormals, base);
    push_run(&mut out, Kernel::ClearNormAtomics, group_count(f.num_particles * 3, 256));
    out.push(Command::Bind(base));
    push_run(&mut out, Kernel::AccumulateNormals, group_count(f.num_tris, 64));
    out.push(Command::Bind(base));
    push_run(&mut out, Kernel::FinalizeNormals, wg64);
    out.push(Command::EndPass);
    assert(out@ =~= before + normals(f, base));
    out
}

} // verus!
