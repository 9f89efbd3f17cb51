//! The simulation as the host drives it: its settings, when a frame runs, and the commands of a
//! frame of the Gauss-Seidel solver.

use vstd::prelude::*;

use crate::device::{BufferCounts, Solver, GS_BATCH_DYNAMIC_STRIDE};
use crate::frame::{
    at_least_one, frame, frame_commands, group_count, groups, pass, push_run, run, Binding, Command,
    FrameShape, Kernel, Pass,
};
use crate::frame_laws::{
    collision_count, collision_dispatches, dispatches, law_collision_count, law_frame_dispatches,
    lemma_dispatches_add, lemma_dispatches_one, lemma_dispatches_run,
};
use crate::cloth_jacobi::{pack_neighbor_gpu, packed_right};
use crate::gs::pow256;
use crate::mesh_prep::batches::divides;
use crate::mesh_prep::cloth_mesh::{copied, ClothMeshData};
use crate::types::{CollGridUniform, SimParams};

verus! {

/// Where the kernels are loaded from.
pub const CLOTH_SHADER: &'static str = "shaders/cloth_sim.wgsl";

/// Substeps of a frame.
pub const SUBSTEPS: u32 = 36;

/// Constraint iterations of a substep.
pub const INNER_ITERS: u32 = 22;

/// Integer scale of the displacements that collisions accumulate.
pub const COLLISION_PAIR_FIXSCALE: i32 = 10_000;

/// Invocations of a workgroup that solves constraints.
pub const GS_EDGE_THREADS: u32 = 128;

/// Pauses the simulation, or lets it run one frame at a time.
#[derive(Clone, Copy)]
pub struct ClothSimControl {
    /// No frame runs until `step_serial` changes.
    pub sim_paused: bool,
    /// Each new value runs one frame while paused.
    pub step_serial: u64,
}

impl Default for ClothSimControl {
    fn default() -> (r: Self)
        ensures
            r == (ClothSimControl { sim_paused: false, step_serial: 0 }),
    {
        ClothSimControl { sim_paused: false, step_serial: 0 }
    }
}

/// Whether the pipelines are there.
#[derive(Clone, Copy, Debug, PartialEq, Eq, Structural)]
pub enum ClothLoadState {
    Loading,
    Ready,
}

impl Default for ClothLoadState {
    fn default() -> (r: Self)
        ensures
            r == ClothLoadState::Loading,
    {
        ClothLoadState::Loading
    }
}

/// The settings of a simulation.
#[derive(Clone, Debug)]
pub struct ClothSimConfig<S> {
    /// Substeps of a frame; zero stands for one.
    pub solve_substeps: u32,
    /// Constraint iterations of a substep; zero stands for one.
    pub solve_inner_iterations: u32,
    /// Collisions are resolved in the last of every so many substeps; zero stands for one.
    pub collision_every_n_substeps: u32,
    pub num_particles: u32,
    pub num_tris: u32,
    pub num_distance_constraints: u32,
    pub coll_grid_origin: [S; 3],
    pub coll_grid_inv_cell: S,
    pub coll_grid_dims: [u32; 3],
    pub coll_num_cells: u32,
    /// Passes of the radix sort by cell, a byte of the cell's number in each.
    pub coll_radix_digits: u32,
    pub constraint_batch_offsets: Vec<u32>,
    pub constraint_batch_count: u32,
    pub constraint_i: Vec<u32>,
    pub constraint_j: Vec<u32>,
    pub constraint_rest_len: Vec<S>,
    pub constraint_compliance: Vec<S>,
    pub neighbor_offsets: Vec<u32>,
    pub neighbor_packed: Vec<[S; 4]>,
    pub tri_indices: Vec<u32>,
    pub inv_mass: Vec<S>,
    pub rest_pos: Vec<[S; 4]>,
    pub initial_pos: Vec<[S; 4]>,
}

/// The parameters of the kernels that change while the simulation runs.
#[derive(Clone, Copy)]
pub struct ClothSimUniforms<S> {
    pub dt: S,
    pub inv_dt: S,
    pub num_particles: u32,
    pub num_tris: u32,
    pub jacobi_omega: S,
    pub inner_iterations: u32,
    pub thickness: S,
    pub coll_scale: S,
    pub gravity: [S; 4],
    pub grab_target: [S; 4],
    pub grab_idx: i32,
    pub grab_active: u32,
    pub grab_stiffness: S,
    pub floor_y: S,
    pub linear_drag_per_sec: S,
    pub constraint_batch_idx: u32,
}

/// The substep parameters in the layout of the kernels.
#[derive(Clone, Copy)]
pub struct ClothSimParamsGpu<S> {
    pub dt: S,
    pub inv_dt: S,
    pub inv_dt_sq: S,
    pub constraint_batch_count: u32,
    pub num_particles: u32,
    pub num_tris: u32,
    pub jacobi_omega: S,
    pub inner_iterations: u32,
    pub thickness: S,
    pub coll_scale: S,
    pub _pad_before_gravity: [S; 2],
    pub gravity: [S; 4],
    pub grab_target: [S; 4],
    pub grab_idx: i32,
    pub grab_active: u32,
    pub grab_stiffness: S,
    pub floor_y: S,
    pub linear_drag_per_sec: S,
    pub constraint_batch_idx: u32,
    pub _uniform_pad_vec2_u: [u32; 2],
    pub _uniform_pad_vec2_f: [S; 2],
    pub _uniform_encase_reserve: [u32; 2],
}

/// The grid parameters in the layout of the kernels.
#[derive(Clone, Copy)]
pub struct ClothCollGridGpu<S> {
    pub grid_origin_pad: [S; 4],
    pub inv_cell: S,
    pub num_cells: u32,
    pub num_particles: u32,
    pub gx: u32,
    pub gy: u32,
    pub gz: u32,
    pub radix_digits: u32,
    pub _align_pad: [u8; 4],
    pub _reserved: [u32; 4],
}

/// The number of a radix pass, in the first word.
#[derive(Clone, Copy)]
pub struct ClothCollRadixPassGpu {
    pub data: [u32; 4],
}

/// The parameters of the kernels out of those of the simulation, with the square of the reciprocal time
/// step.
pub open spec fn packed_params<S>(
    uniforms: ClothSimUniforms<S>,
    constraint_batch_count: u32,
    zero: S,
    inv_dt_sq: S,
) -> ClothSimParamsGpu<S> {
    ClothSimParamsGpu {
        dt: uniforms.dt,
        inv_dt: uniforms.inv_dt,
        inv_dt_sq,
        constraint_batch_count,
        num_particles: uniforms.num_particles,
        num_tris: uniforms.num_tris,
        jacobi_omega: uniforms.jacobi_omega,
        inner_iterations: uniforms.inner_iterations,
        thickness: uniforms.thickness,
        coll_scale: uniforms.coll_scale,
        _pad_before_gravity: [zero, zero],
        gravity: uniforms.gravity,
        grab_target: uniforms.grab_target,
        grab_idx: uniforms.grab_idx,
        grab_active: uniforms.grab_active,
        grab_stiffness: uniforms.grab_stiffness,
        floor_y: uniforms.floor_y,
        linear_drag_per_sec: uniforms.linear_drag_per_sec,
        constraint_batch_idx: uniforms.constraint_batch_idx,
        _uniform_pad_vec2_u: [0, 0],
        _uniform_pad_vec2_f: [zero, zero],
        _uniform_encase_reserve: [0, 0],
    }
}

impl<S: Copy> ClothSimParamsGpu<S> {
    /// The parameters of the kernels; `times` multiplies.
    pub fn pack<F: Fn(S, S) -> S>(
        uniforms: &ClothSimUniforms<S>,
        constraint_batch_count: u32,
        zero: S,
        times: &F,
    ) -> (r: Self)
        requires
            forall|a: S, b: S| #[trigger] times.requires((a, b)),
        ensures
            times.ensures((uniforms.inv_dt, uniforms.inv_dt), r.inv_dt_sq),
            r == packed_params(*uniforms, constraint_batch_count, zero, r.inv_dt_sq),
    {
        let inv_dt = uniforms.inv_dt;
        let inv_dt_sq = times(inv_dt, inv_dt);
        ClothSimParamsGpu {
            dt: uniforms.dt,
            inv_dt,
            inv_dt_sq,
            constraint_batch_count,
            num_particles: uniforms.num_particles,
            num_tris: uniforms.num_tris,
            jacobi_omega: uniforms.jacobi_omega,
            inner_iterations: uniforms.inner_iterations,
            thickness: uniforms.thickness,
            coll_scale: uniforms.coll_scale,
            _pad_before_gravity: [zero, zero],
            gravity: uniforms.gravity,
            grab_target: uniforms.grab_target,
            grab_idx: uniforms.grab_idx,
            grab_active: uniforms.grab_active,
            grab_stiffness: uniforms.grab_stiffness,
            floor_y: uniforms.floor_y,
            linear_drag_per_sec: uniforms.linear_drag_per_sec,
            constraint_batch_idx: uniforms.constraint_batch_idx,
            _uniform_pad_vec2_u: [0, 0],
            _uniform_pad_vec2_f: [zero, zero],
            _uniform_encase_reserve: [0, 0],
        }
    }
}

/// The grid parameters of the kernels out of the settings.
pub open spec fn packed_grid<S>(cfg: ClothSimConfig<S>, zero: S) -> ClothCollGridGpu<S> {
    ClothCollGridGpu {
        grid_origin_pad: [
            cfg.coll_grid_origin[0],
            cfg.coll_grid_origin[1],
            cfg.coll_grid_origin[2],
            zero,
        ],
        inv_cell: cfg.coll_grid_inv_cell,
        num_cells: cfg.coll_num_cells,
        num_particles: cfg.num_particles,
        gx: cfg.coll_grid_dims[0],
        gy: cfg.coll_grid_dims[1],
        gz: cfg.coll_grid_dims[2],
        radix_digits: cfg.coll_radix_digits,
        _align_pad: [0, 0, 0, 0],
        _reserved: [0, 0, 0, 0],
    }
}

impl<S: Copy> ClothCollGridGpu<S> {
    /// The grid parameters of the kernels.
    pub fn pack_from_config(cfg: &ClothSimConfig<S>, zero: S) -> (r: Self)
        ensures
            r == packed_grid(*cfg, zero),
    {
        let o = cfg.coll_grid_origin;
        ClothCollGridGpu {
            grid_origin_pad: [o[0], o[1], o[2], zero],
            inv_cell: cfg.coll_grid_inv_cell,
            num_cells: cfg.coll_num_cells,
            num_particles: cfg.num_particles,
            gx: cfg.coll_grid_dims[0],
            gy: cfg.coll_grid_dims[1],
            gz: cfg.coll_grid_dims[2],
            radix_digits: cfg.coll_radix_digits,
            _align_pad: [0, 0, 0, 0],
            _reserved: [0, 0, 0, 0],
        }
    }
}

/// Takes the substeps and iterations of the settings over to the uniforms. `share` divides the time
/// of a frame by a number of substeps, `invert` gives the reciprocal.
pub fn sync_cloth_solve_budget_to_uniforms<S: Copy, F: Fn(u32) -> S, G: Fn(S) -> S>(
    cfg: &ClothSimConfig<S>,
    uniforms: &mut ClothSimUniforms<S>,
    share: &F,
    invert: &G,
)
    requires
        forall|n: u32| n >= 1 ==> #[trigger] share.requires((n,)),
        forall|a: S| #[trigger] invert.requires((a,)),
    ensures
        share.ensures((at_least_one(cfg.solve_substeps),), final(uniforms).dt),
        invert.ensures((final(uniforms).dt,), final(uniforms).inv_dt),
        *final(uniforms) == (ClothSimUniforms {
            dt: final(uniforms).dt,
            inv_dt: final(uniforms).inv_dt,
            inner_iterations: at_least_one(cfg.solve_inner_iterations),
            ..*old(uniforms)
        }),
{
    let s: u32 = if cfg.solve_substeps == 0 {
        1
    } else {
        cfg.solve_substeps
    };
    let i: u32 = if cfg.solve_inner_iterations == 0 {
        1
    } else {
        cfg.solve_inner_iterations
    };
    let dt = share(s);
    uniforms.dt = dt;
    uniforms.inv_dt = invert(dt);
    uniforms.inner_iterations = i;
}

/// The number of batches that the kernels of a solver are told; the Jacobi solver has none.
pub fn told_batch_count<S>(solver: Solver, cfg: &ClothSimConfig<S>) -> (r: u32)
    ensures
        r == if solver == Solver::GaussSeidel {
            cfg.constraint_batch_count
        } else {
            0
        },
{
    match solver {
        Solver::GaussSeidel => cfg.constraint_batch_count,
        Solver::Jacobi => 0,
    }
}

/// Whether the buffers are to be created: there is something to simulate, and they are not there.
pub fn init_is_due<S>(existing: bool, config: Option<&ClothSimConfig<S>>) -> (r: bool)
    ensures
        r == (!existing && config is Some && config->0.num_particles != 0),
{
    if existing {
        return false;
    }
    match config {
        Some(c) => c.num_particles != 0,
        None => false,
    }
}

/// What is known of a pipeline.
#[derive(Clone, Copy, Debug, PartialEq, Eq, Structural)]
pub enum PipelineStatus {
    Done,
    /// Not there yet; that its shader is not loaded yet counts too.
    Pending,
    Broken,
}

/// What a look at the pipelines comes to.
#[derive(Clone, Copy, Debug, PartialEq, Eq, Structural)]
pub enum PipelineCheck {
    State(ClothLoadState),
    /// The pipeline with this number cannot be built.
    Failed(usize),
}

/// The first pipeline that is not done.
pub open spec fn first_open(statuses: Seq<PipelineStatus>) -> int
    decreases statuses.len(),
{
    if statuses.len() == 0 {
        0
    } else if statuses[0] == PipelineStatus::Done {
        1 + first_open(statuses.drop_first())
    } else {
        0
    }
}

/// All pipelines before the first one that is not done are done, and it is not.
pub proof fn law_first_open(statuses: Seq<PipelineStatus>, k: int)
    ensures
        0 <= first_open(statuses) <= statuses.len(),
        0 <= k < first_open(statuses) ==> statuses[k] == PipelineStatus::Done,
        first_open(statuses) < statuses.len() ==> statuses[first_open(statuses)]
            != PipelineStatus::Done,
    decreases statuses.len(),
{
    if statuses.len() > 0 && statuses[0] == PipelineStatus::Done {
        let rest = statuses.drop_first();
        law_first_open(rest, k - 1);
        if 0 < k < first_open(statuses) {
            assert(rest[k - 1] == statuses[k]);
        }
        if first_open(statuses) < statuses.len() {
            assert(rest[first_open(rest)] == statuses[first_open(statuses)]);
        }
    }
}

/// The load state after a look at the pipelines: it becomes ready once all are done. The first one
/// that is not decides: it is waited for, or the check fails.
pub fn check_cloth_pipeline(state: ClothLoadState, statuses: &[PipelineStatus]) -> (r: PipelineCheck)
    ensures
        r == if state == ClothLoadState::Ready {
            PipelineCheck::State(ClothLoadState::Ready)
        } else if first_open(statuses@) == statuses@.len() {
            PipelineCheck::State(ClothLoadState::Ready)
        } else if statuses@[first_open(statuses@)] == PipelineStatus::Pending {
            PipelineCheck::State(state)
        } else {
            PipelineCheck::Failed(first_open(statuses@) as usize)
        },
{
    if state == ClothLoadState::Ready {
        return PipelineCheck::State(ClothLoadState::Ready);
    }
    let mut k: usize = 0;
    assert(statuses@.skip(0) =~= statuses@);
    while k < statuses.len()
        invariant
            k <= statuses@.len(),
            state == ClothLoadState::Loading,
            first_open(statuses@) == k + first_open(statuses@.skip(k as int)),
        decreases statuses@.len() - k,
    {
        assert(statuses@.skip(k as int).drop_first() =~= statuses@.skip(k + 1));
        match statuses[k] {
            PipelineStatus::Done => {},
            PipelineStatus::Pending => {
                return PipelineCheck::State(state);
            },
            PipelineStatus::Broken => {
                return PipelineCheck::Failed(k);
            },
        }
        k = k + 1;
    }
    PipelineCheck::State(ClothLoadState::Ready)
}

/// A frame runs: the simulation is not paused, or the step serial is a new one.
pub open spec fn step_due(ctrl: ClothSimControl, last_ack: u64) -> bool {
    !ctrl.sim_paused || ctrl.step_serial != last_ack
}

/// Remembers which step was run last.
#[derive(Clone, Copy)]
pub struct ClothSimNode {
    pub last_ack_step_serial: u64,
}

impl Default for ClothSimNode {
    fn default() -> (r: Self)
        ensures
            r == (ClothSimNode { last_ack_step_serial: 0 }),
    {
        ClothSimNode { last_ack_step_serial: 0 }
    }
}

impl ClothSimNode {
    /// Whether a frame runs now: a step is due, the pipelines are there, and so are the bindings.
    pub fn runs(&self, ctrl: &ClothSimControl, state: ClothLoadState, bound: bool) -> (r: bool)
        ensures
            r == (step_due(*ctrl, self.last_ack_step_serial) && state == ClothLoadState::Ready
                && bound),
    {
        if ctrl.sim_paused && ctrl.step_serial == self.last_ack_step_serial {
            return false;
        }
        state == ClothLoadState::Ready && bound
    }

    /// Notes that a frame ran.
    pub fn acknowledge(&mut self, ctrl: &ClothSimControl)
        ensures
            final(self).last_ack_step_serial == ctrl.step_serial,
    {
        self.last_ack_step_serial = ctrl.step_serial;
    }
}

/// The serial that is acknowledged after a run of looks at the control while paused, and how many
/// frames ran; `serials` are the step serials at the looks.
pub open spec fn paused_runs(serials: Seq<u64>, last_ack: u64) -> (u64, int)
    decreases serials.len(),
{
    if serials.len() == 0 {
        (last_ack, 0)
    } else {
        let (last, count) = paused_runs(serials.drop_last(), last_ack);
        let ctrl = ClothSimControl { sim_paused: true, step_serial: serials.last() };
        if step_due(ctrl, last) {
            (serials.last(), count + 1)
        } else {
            (last, count)
        }
    }
}

/// How often the serial differs from the one before.
pub open spec fn serial_changes(serials: Seq<u64>, before: u64) -> int
    decreases serials.len(),
{
    if serials.len() == 0 {
        0
    } else {
        let previous = if serials.len() == 1 {
            before
        } else {
            serials[serials.len() - 2]
        };
        serial_changes(serials.drop_last(), before) + if serials.last() != previous {
            1int
        } else {
            0
        }
    }
}

/// While paused, each new step serial runs exactly one frame, and nothing else runs any.
pub proof fn law_steps_run_once(serials: Seq<u64>, last_ack: u64)
    ensures
        paused_runs(serials, last_ack).1 == serial_changes(serials, last_ack),
        paused_runs(serials, last_ack).0 == if serials.len() == 0 {
            last_ack
        } else {
            serials.last()
        },
    decreases serials.len(),
{
    if serials.len() > 0 {
        law_steps_run_once(serials.drop_last(), last_ack);
        if serials.len() > 1 {
            assert(serials.drop_last().last() == serials[serials.len() - 2]);
        }
    }
}

/// Not paused, every look runs a frame.
pub proof fn law_running_never_skips(step_serial: u64, last_ack: u64)
    ensures
        step_due(ClothSimControl { sim_paused: false, step_serial }, last_ack),
{
}

impl<S> ClothSimConfig<S> {
    /// What a frame is made of; `collisions` says whether they are resolved at all.
    pub open spec fn shape_spec(&self, collisions: bool) -> FrameShape {
        FrameShape {
            num_particles: self.num_particles,
            num_tris: self.num_tris,
            num_distance_constraints: self.num_distance_constraints,
            num_cells: self.coll_num_cells,
            radix_digits: self.coll_radix_digits,
            substeps: self.solve_substeps,
            inner_iterations: self.solve_inner_iterations,
            collision_every: self.collision_every_n_substeps,
            collisions,
        }
    }

    /// What a frame is made of; `collisions` says whether they are resolved at all.
    pub fn shape(&self, collisions: bool) -> (r: FrameShape)
        ensures
            r == self.shape_spec(collisions),
    {
        FrameShape {
            num_particles: self.num_particles,
            num_tris: self.num_tris,
            num_distance_constraints: self.num_distance_constraints,
            num_cells: self.coll_num_cells,
            radix_digits: self.coll_radix_digits,
            substeps: self.solve_substeps,
            inner_iterations: self.solve_inner_iterations,
            collision_every: self.collision_every_n_substeps,
            collisions,
        }
    }

    /// The counts that the sizes of the buffers depend on.
    pub fn buffer_counts(&self) -> (r: BufferCounts)
        requires
            self.tri_indices@.len() <= u32::MAX,
            self.constraint_batch_offsets@.len() <= u32::MAX,
            self.neighbor_offsets@.len() <= u32::MAX,
            self.neighbor_packed@.len() <= u32::MAX,
        ensures
            r == (BufferCounts {
                particles: self.num_particles,
                constraints: self.num_distance_constraints,
                tri_indices: self.tri_indices@.len() as u32,
                batches: self.constraint_batch_count,
                batch_offsets: self.constraint_batch_offsets@.len() as u32,
                cells: self.coll_num_cells,
                neighbor_offsets: self.neighbor_offsets@.len() as u32,
                neighbor_entries: self.neighbor_packed@.len() as u32,
            }),
    {
        BufferCounts {
            particles: self.num_particles,
            constraints: self.num_distance_constraints,
            tri_indices: self.tri_indices.len() as u32,
            batches: self.constraint_batch_count,
            batch_offsets: self.constraint_batch_offsets.len() as u32,
            cells: self.coll_num_cells,
            neighbor_offsets: self.neighbor_offsets.len() as u32,
            neighbor_entries: self.neighbor_packed.len() as u32,
        }
    }
}

/// The frames of the settings have their counts, substeps, iterations and collisions.
pub proof fn law_shape_of_settings<S>(cfg: ClothSimConfig<S>, collisions: bool)
    ensures
        ({
            let f = cfg.shape_spec(collisions);
            &&& f.num_particles == cfg.num_particles
            &&& f.num_tris == cfg.num_tris
            &&& f.num_distance_constraints == cfg.num_distance_constraints
            &&& f.num_cells == cfg.coll_num_cells
            &&& f.radix_digits == cfg.coll_radix_digits
            &&& f.substeps == cfg.solve_substeps
            &&& f.inner_iterations == cfg.solve_inner_iterations
            &&& f.collision_every == cfg.collision_every_n_substeps
            &&& f.collisions == collisions
        }),
{
}

/// The number of constraints in batch `b`.
pub open spec fn batch_span(offsets: Seq<u32>, b: int) -> int {
    if offsets[b + 1] >= offsets[b] {
        offsets[b + 1] - offsets[b]
    } else {
        0
    }
}

/// The offset of the dynamic uniform slot of batch `b`.
pub open spec fn slot_offset(b: int) -> u32 {
    if b * GS_BATCH_DYNAMIC_STRIDE <= u32::MAX {
        (b * GS_BATCH_DYNAMIC_STRIDE) as u32
    } else {
        u32::MAX
    }
}

/// Solves the first `b` batches, but for empty ones.
pub open spec fn gs_batches(offsets: Seq<u32>, b: int) -> Seq<Command>
    decreases b,
{
    if b <= 0 {
        seq![]
    } else if batch_span(offsets, b - 1) == 0 {
        gs_batches(offsets, b - 1)
    } else {
        gs_batches(offsets, b - 1) + seq![
            Command::Bind(Binding::Cloth(slot_offset(b - 1))),
            Command::Dispatch(groups(batch_span(offsets, b - 1), GS_EDGE_THREADS as int)),
        ]
    }
}

/// One iteration over the constraints: clears the multipliers, then solves batch by batch.
pub open spec fn gs_iteration(constraints: u32, offsets: Seq<u32>, batches: u32) -> Seq<Command> {
    seq![Command::Bind(Binding::Cloth(0))] + run(
        Kernel::ClearConstraintLambda,
        groups(constraints as int, 64),
    ) + seq![Command::SetPipeline(Kernel::GsEdges)] + gs_batches(offsets, batches as int)
}

/// The first `k` iterations over the constraints.
pub open spec fn gs_iterations(
    constraints: u32,
    offsets: Seq<u32>,
    batches: u32,
    k: int,
) -> Seq<Command>
    decreases k,
{
    if k <= 0 {
        seq![]
    } else {
        gs_iterations(constraints, offsets, batches, k - 1) + gs_iteration(
            constraints,
            offsets,
            batches,
        )
    }
}

/// Solves the constraints of one substep, all iterations in one pass.
pub open spec fn gs_distance(
    f: FrameShape,
    offsets: Seq<u32>,
    batches: u32,
) -> Seq<Command> {
    if f.num_distance_constraints > 0 && batches > 0 {
        seq![Command::BeginPass(Pass::DistanceGaussSeidel)] + gs_iterations(
            f.num_distance_constraints,
            offsets,
            batches,
            at_least_one(f.inner_iterations) as int,
        ) + seq![Command::EndPass]
    } else {
        seq![]
    }
}

fn push_gs_batches(out: &mut Vec<Command>, offsets: &Vec<u32>, batches: u32)
    requires
        batches < offsets@.len(),
    ensures
        final(out)@ == old(out)@ + gs_batches(offsets@, batches as int),
{
    let ghost before = out@;
    let mut b: u32 = 0;
    assert(before + gs_batches(offsets@, 0) =~= before);
    while b < batches
        invariant
            b <= batches,
            batches < offsets@.len(),
            out@ == before + gs_batches(offsets@, b as int),
        decreases batches - b,
    {
        let start: u32 = offsets[b as usize];
        let end: u32 = offsets[b as usize + 1];
        let ghost so_far = out@;
        if end > start {
            let span: u64 = (end - start) as u64;
            let wg: u32 = ((span + (GS_EDGE_THREADS as u64 - 1)) / GS_EDGE_THREADS as u64) as u32;
            let offset: u32 = if b <= u32::MAX / GS_BATCH_DYNAMIC_STRIDE {
                b * GS_BATCH_DYNAMIC_STRIDE
            } else {
                u32::MAX
            };
            out.push(Command::Bind(Binding::Cloth(offset)));
            out.push(Command::Dispatch(wg));
            assert(out@ =~= so_far + seq![
                Command::Bind(Binding::Cloth(slot_offset(b as int))),
                Command::Dispatch(groups(batch_span(offsets@, b as int), GS_EDGE_THREADS as int)),
            ]);
        }
        assert(out@ =~= before + gs_batches(offsets@, b + 1));
        b = b + 1;
    }
}

/// The commands that solve the constraints of one substep.
pub fn gs_distance_commands(f: FrameShape, offsets: &Vec<u32>, batches: u32) -> (out: Vec<Command>)
    requires
        f.fits(),
        f.num_distance_constraints > 0 ==> batches == 0 || batches < offsets@.len(),
    ensures
        out@ == gs_distance(f, offsets@, batches),
{
    let mut out: Vec<Command> = Vec::new();
    if f.num_distance_constraints == 0 || batches == 0 {
        assert(out@ =~= gs_distance(f, offsets@, batches));
        return out;
    }
    let inner: u32 = if f.inner_iterations == 0 {
        1
    } else {
        f.inner_iterations
    };
    let wg: u32 = group_count(f.num_distance_constraints, 64);
    out.push(Command::BeginPass(Pass::DistanceGaussSeidel));
    let ghost first = seq![Command::BeginPass(Pass::DistanceGaussSeidel)];
    let ghost c = f.num_distance_constraints;
    assert(out@ =~= first + gs_iterations(c, offsets@, batches, 0));
    let mut k: u32 = 0;
    while k < inner
        invariant
            k <= inner,
            batches < offsets@.len(),
            wg == groups(c as int, 64),
            out@ == first + gs_iterations(c, offsets@, batches, k as int),
        decreases inner - k,
    {
        let ghost so_far = out@;
        out.push(Command::Bind(Binding::Cloth(0)));
        push_run(&mut out, Kernel::ClearConstraintLambda, wg);
        out.push(Command::SetPipeline(Kernel::GsEdges));
        push_gs_batches(&mut out, offsets, batches);
        proof {
            assert(out@ =~= so_far + gs_iteration(c, offsets@, batches));
            assert(out@ =~= first + gs_iterations(c, offsets@, batches, k + 1));
        }
        k = k + 1;
    }
    out.push(Command::EndPass);
    assert(out@ =~= gs_distance(f, offsets@, batches));
    out
}

/// The commands of a frame of the Gauss-Seidel solver.
pub fn gs_frame_commands<S>(cfg: &ClothSimConfig<S>, collisions: bool) -> (out: Vec<Command>)
    requires
        cfg.shape_spec(collisions).fits(),
        cfg.num_distance_constraints > 0 ==> cfg.constraint_batch_count == 0
            || cfg.constraint_batch_count < cfg.constraint_batch_offsets@.len(),
    ensures
        out@ == frame(
            cfg.shape_spec(collisions),
            Binding::Cloth(0),
            Binding::Cloth(0),
            gs_distance(
                cfg.shape_spec(collisions),
                cfg.constraint_batch_offsets@,
                cfg.constraint_batch_count,
            ),
        ),
{
    let f = cfg.shape(collisions);
    let distance = gs_distance_commands(
        f,
        &cfg.constraint_batch_offsets,
        cfg.constraint_batch_count,
    );
    frame_commands(f, Binding::Cloth(0), Binding::Cloth(0), &distance)
}

/// Every iteration over the constraints is the same, and starts with clearing the multipliers.
pub proof fn law_lambda_cleared_each_iteration(
    constraints: u32,
    offsets: Seq<u32>,
    batches: u32,
    n: int,
    k: int,
)
    requires
        0 <= k < n,
    ensures
        ({
            let one = gs_iteration(constraints, offsets, batches);
            let all = gs_iterations(constraints, offsets, batches, n);
            &&& all.len() == n * one.len()
            &&& all.subrange(k * one.len(), (k + 1) * one.len()) == one
            &&& one[1] == Command::SetPipeline(Kernel::ClearConstraintLambda)
            &&& one[2] == Command::Dispatch(groups(constraints as int, 64))
        }),
    decreases n,
{
    let one = gs_iteration(constraints, offsets, batches);
    let before = gs_iterations(constraints, offsets, batches, n - 1);
    let all = gs_iterations(constraints, offsets, batches, n);
    let l = one.len() as int;
    assert((n - 1) * l + l == n * l) by (nonlinear_arith);
    assert(k * l + l == (k + 1) * l) by (nonlinear_arith);
    lemma_iterations_len(constraints, offsets, batches, n - 1);
    if k == n - 1 {
        assert(all.subrange(k * l, (k + 1) * l) =~= one);
    } else {
        law_lambda_cleared_each_iteration(constraints, offsets, batches, n - 1, k);
        assert(0 <= k * l && (k + 1) * l <= (n - 1) * l) by (nonlinear_arith)
            requires
                0 <= k < n - 1,
                0 <= l,
        ;
        assert(all.subrange(k * l, (k + 1) * l) =~= before.subrange(k * l, (k + 1) * l));
    }
}

proof fn lemma_iterations_len(constraints: u32, offsets: Seq<u32>, batches: u32, n: int)
    requires
        0 <= n,
    ensures
        gs_iterations(constraints, offsets, batches, n).len() == n * gs_iteration(
            constraints,
            offsets,
            batches,
        ).len(),
    decreases n,
{
    let l = gs_iteration(constraints, offsets, batches).len() as int;
    if n > 0 {
        lemma_iterations_len(constraints, offsets, batches, n - 1);
        assert((n - 1) * l + l == n * l) by (nonlinear_arith);
    } else {
        assert(0 * l == 0);
    }
}

proof fn lemma_dispatches_batches(offsets: Seq<u32>, m: int, b: int)
    requires
        divides(offsets, m),
        0 <= b < offsets.len(),
    ensures
        dispatches(gs_batches(offsets, b)) == b,
    decreases b,
{
    if b > 0 {
        lemma_dispatches_batches(offsets, m, b - 1);
        assert(offsets[b - 1] < offsets[b]);
        let x = Command::Bind(Binding::Cloth(slot_offset(b - 1)));
        let y = Command::Dispatch(groups(batch_span(offsets, b - 1), GS_EDGE_THREADS as int));
        lemma_dispatches_one(x);
        lemma_dispatches_one(y);
        lemma_dispatches_add(seq![x], seq![y]);
        assert(seq![x, y] =~= seq![x] + seq![y]);
        lemma_dispatches_add(gs_batches(offsets, b - 1), seq![x, y]);
    }
}

proof fn lemma_dispatches_iterations(
    constraints: u32,
    offsets: Seq<u32>,
    m: int,
    batches: u32,
    k: int,
)
    requires
        divides(offsets, m),
        batches == offsets.len() - 1,
        0 <= k,
    ensures
        dispatches(gs_iterations(constraints, offsets, batches, k)) == k * (batches + 1),
    decreases k,
{
    if k > 0 {
        lemma_dispatches_iterations(constraints, offsets, m, batches, k - 1);
        lemma_dispatches_batches(offsets, m, batches as int);
        let b = Command::Bind(Binding::Cloth(0));
        let p = Command::SetPipeline(Kernel::GsEdges);
        let wg = groups(constraints as int, 64);
        let c = run(Kernel::ClearConstraintLambda, wg);
        lemma_dispatches_one(b);
        lemma_dispatches_one(p);
        lemma_dispatches_run(Kernel::ClearConstraintLambda, wg);
        lemma_dispatches_add(seq![b], c);
        lemma_dispatches_add(seq![b] + c, seq![p]);
        lemma_dispatches_add(seq![b] + c + seq![p], gs_batches(offsets, batches as int));
        lemma_dispatches_add(
            gs_iterations(constraints, offsets, batches, k - 1),
            gs_iteration(constraints, offsets, batches),
        );
        assert((k - 1) * (batches + 1) + (batches + 1) == k * (batches + 1)) by (nonlinear_arith);
    } else {
        assert(0 * (batches + 1) == 0);
    }
}

/// With constraints in `B` batches, a frame of `S` substeps of `I` iterations takes
/// `S * (3 + I * (B + 1)) + 3` dispatches, and those of the collisions. Where every substep
/// resolves collisions, that is `S * (6 + I * (B + 1)) + 3` without the broad phase, which takes
/// three dispatches and four for each digit in every substep.
pub proof fn law_gs_frame_dispatches(f: FrameShape, offsets: Seq<u32>, batches: u32)
    requires
        f.num_distance_constraints > 0,
        divides(offsets, f.num_distance_constraints as int),
        batches == offsets.len() - 1,
    ensures
        ({
            let s = at_least_one(f.substeps) as int;
            let i = at_least_one(f.inner_iterations) as int;
            let r = at_least_one(f.radix_digits) as int;
            let all = dispatches(
                frame(f, Binding::Cloth(0), Binding::Cloth(0), gs_distance(f, offsets, batches)),
            );
            &&& all == s * (3 + i * (batches + 1)) + collision_count(f, s) * collision_dispatches(f)
                + 3
            &&& f.collisions && at_least_one(f.collision_every) == 1 ==> all == s * (6 + i * (batches
                + 1)) + 3 + s * (3 + 4 * r)
        }),
{
    let s = at_least_one(f.substeps) as int;
    let i = at_least_one(f.inner_iterations) as int;
    let r = at_least_one(f.radix_digits) as int;
    let c = f.num_distance_constraints;
    assert(batches > 0);
    let first = seq![Command::BeginPass(Pass::DistanceGaussSeidel)];
    let body = gs_iterations(c, offsets, batches, i);
    lemma_dispatches_one(Command::BeginPass(Pass::DistanceGaussSeidel));
    lemma_dispatches_one(Command::EndPass);
    lemma_dispatches_iterations(c, offsets, c as int, batches, i);
    lemma_dispatches_add(first, body);
    lemma_dispatches_add(first + body, seq![Command::EndPass]);
    law_frame_dispatches(
        f,
        Binding::Cloth(0),
        Binding::Cloth(0),
        gs_distance(f, offsets, batches),
    );
    law_collision_count(f, s);
    let x = i * (batches + 1);
    if f.collisions && at_least_one(f.collision_every) == 1 {
        assert(s * (3 + x) + s * (6 + 4 * r) == s * (6 + x) + s * (3 + 4 * r)) by (nonlinear_arith);
    }
}

/// Whether the substeps of a frame resolve collisions: not where their strength is zero or less.
pub fn resolves_collisions<S: Copy, L: Fn(S, S) -> bool>(
    uniforms: &ClothSimUniforms<S>,
    zero: S,
    lt: &L,
) -> (r: bool)
    requires
        lt.requires((zero, uniforms.coll_scale)),
    ensures
        lt.ensures((zero, uniforms.coll_scale), r),
{
    lt(zero, uniforms.coll_scale)
}

/// The least number of bytes that tell `num_cells` cells apart, at least one.
pub fn radix_digits_for(num_cells: u32) -> (r: u32)
    ensures
        1 <= r <= 4,
        num_cells <= pow256(r as nat),
        r > 1 ==> num_cells > pow256((r - 1) as nat),
{
    proof {
        reveal_with_fuel(pow256, 5);
    }
    if num_cells <= 0x100 {
        1
    } else if num_cells <= 0x1_0000 {
        2
    } else if num_cells <= 0x100_0000 {
        3
    } else {
        4
    }
}

/// Where the collision grid is, and how many cells it has along each axis.
#[derive(Clone, Copy)]
pub struct CollisionGrid<S> {
    pub origin: [S; 3],
    pub inv_cell: S,
    pub dims: [u32; 3],
}

impl<S> CollisionGrid<S> {
    /// There is a cell, and all of them can be numbered.
    pub open spec fn wf(&self) -> bool {
        &&& 0 < self.dims[0] <= i32::MAX
        &&& 0 < self.dims[1] <= i32::MAX
        &&& 0 < self.dims[2] <= i32::MAX
        &&& self.dims[0] * self.dims[1] * self.dims[2] <= u32::MAX
    }

    /// Whether there is a cell, and all of them can be numbered.
    pub fn is_wf(&self) -> (r: bool)
        ensures
            r == self.wf(),
    {
        let (x, y, z) = (self.dims[0], self.dims[1], self.dims[2]);
        let most: u32 = 0x7fff_ffff;
        if x == 0 || y == 0 || z == 0 || x > most || y > most || z > most {
            return false;
        }
        proof {
            if x * y > u32::MAX {
                assert(x * y * z > u32::MAX) by (nonlinear_arith)
                    requires
                        x * y > u32::MAX,
                        z >= 1,
                ;
            }
        }
        match x.checked_mul(y) {
            Some(xy) => match xy.checked_mul(z) {
                Some(_) => true,
                None => false,
            },
            None => false,
        }
    }
}

/// Points with a fourth component.
pub open spec fn extended<S>(points: Seq<[S; 3]>, w: S) -> Seq<[S; 4]> {
    points.map_values(|p: [S; 3]| [p[0], p[1], p[2], w])
}

/// Appends a fourth component to the points.
pub fn extend_points<S: Copy>(points: &[[S; 3]], w: S) -> (r: Vec<[S; 4]>)
    ensures
        r@ == extended(points@, w),
{
    let mut r: Vec<[S; 4]> = Vec::new();
    let mut k: usize = 0;
    while k < points.len()
        invariant
            k <= points@.len(),
            r@ == extended(points@, w).take(k as int),
        decreases points@.len() - k,
    {
        let p = points[k];
        r.push([p[0], p[1], p[2], w]);
        assert(r@ =~= extended(points@, w).take(k + 1));
        k = k + 1;
    }
    assert(r@ =~= extended(points@, w));
    r
}

impl<S: Copy> ClothMeshData<S> {
    /// The settings for a simulation of the mesh, with the default budget and collisions in every
    /// substep.
    pub fn to_sim_config<F: Fn(u32) -> S>(&self, grid: CollisionGrid<S>, zero: S, scalar: &F) -> (r:
        ClothSimConfig<S>)
        requires
            self.neighbors_sliced(),
            self.indices@.len() / 3 <= u32::MAX,
            grid.wf(),
            forall|i: u32| #[trigger] scalar.requires((i,)),
        ensures
            r.solve_substeps == SUBSTEPS,
            r.solve_inner_iterations == INNER_ITERS,
            r.collision_every_n_substeps == 1,
            r.num_particles == self.num_particles,
            r.num_tris == self.indices@.len() / 3,
            r.num_distance_constraints == self.num_distance_constraints,
            r.coll_grid_origin == grid.origin,
            r.coll_grid_inv_cell == grid.inv_cell,
            r.coll_grid_dims == grid.dims,
            r.coll_num_cells == grid.dims[0] * grid.dims[1] * grid.dims[2],
            1 <= r.coll_radix_digits <= 4,
            r.coll_num_cells <= pow256(r.coll_radix_digits as nat),
            r.coll_radix_digits > 1 ==> r.coll_num_cells > pow256(
                (r.coll_radix_digits - 1) as nat,
            ),
            r.constraint_batch_offsets@ == self.constraint_batch_offsets@,
            r.constraint_batch_count == self.constraint_batch_count,
            r.constraint_i@ == self.constraint_i@,
            r.constraint_j@ == self.constraint_j@,
            r.constraint_rest_len@ == self.constraint_rest_len@,
            r.constraint_compliance@ == self.constraint_compliance@,
            r.neighbor_offsets@ == self.neighbor_offsets@,
            packed_right(*self, r.neighbor_packed@, *scalar),
            r.tri_indices@ == self.indices@,
            r.inv_mass@ == self.inv_mass@,
            r.rest_pos@ == extended(self.rest_positions@, zero),
            r.initial_pos@ == extended(self.positions@, zero),
    {
        let dims = grid.dims;
        assert(dims[0] * dims[1] <= u32::MAX) by (nonlinear_arith)
            requires
                dims[0] * dims[1] * dims[2] <= u32::MAX,
                dims[0] >= 0,
                dims[1] >= 0,
                dims[2] >= 1,
        ;
        let num_cells: u32 = dims[0] * dims[1] * dims[2];
        ClothSimConfig {
            solve_substeps: SUBSTEPS,
            solve_inner_iterations: INNER_ITERS,
            collision_every_n_substeps: 1,
            num_particles: self.num_particles,
            num_tris: (self.indices.len() / 3) as u32,
            num_distance_constraints: self.num_distance_constraints,
            coll_grid_origin: grid.origin,
            coll_grid_inv_cell: grid.inv_cell,
            coll_grid_dims: dims,
            coll_num_cells: num_cells,
            coll_radix_digits: radix_digits_for(num_cells),
            constraint_batch_offsets: copied(self.constraint_batch_offsets.as_slice()),
            constraint_batch_count: self.constraint_batch_count,
            constraint_i: copied(self.constraint_i.as_slice()),
            constraint_j: copied(self.constraint_j.as_slice()),
            constraint_rest_len: copied(self.constraint_rest_len.as_slice()),
            constraint_compliance: copied(self.constraint_compliance.as_slice()),
            neighbor_offsets: copied(self.neighbor_offsets.as_slice()),
            neighbor_packed: pack_neighbor_gpu(self, scalar),
            tri_indices: copied(self.indices.as_slice()),
            inv_mass: copied(self.inv_mass.as_slice()),
            rest_pos: extend_points(self.rest_positions.as_slice(), zero),
            initial_pos: extend_points(self.positions.as_slice(), zero),
        }
    }
}

impl<S> ClothCollGridGpu<S> {
    /// The parameters as the kernels read them.
    pub open spec fn as_uniform(&self) -> CollGridUniform<S> {
        CollGridUniform {
            grid_origin_pad: self.grid_origin_pad,
            inv_cell: self.inv_cell,
            num_cells: self.num_cells,
            num_particles: self.num_particles,
            gx: self.gx,
            gy: self.gy,
            gz: self.gz,
            radix_digits: self.radix_digits,
            _align_pad: 0,
            _reserved: self._reserved,
        }
    }
}

impl<S> ClothSimParamsGpu<S> {
    /// The parameters as the kernels read them. They read no floor.
    pub open spec fn as_params(&self) -> SimParams<S> {
        SimParams {
            dt: self.dt,
            inv_dt: self.inv_dt,
            inv_dt_sq: self.inv_dt_sq,
            constraint_batch_count: self.constraint_batch_count,
            num_particles: self.num_particles,
            num_tris: self.num_tris,
            jacobi_omega: self.jacobi_omega,
            inner_iterations: self.inner_iterations,
            thickness: self.thickness,
            coll_scale: self.coll_scale,
            _pad_before_gravity: self._pad_before_gravity,
            gravity: self.gravity,
            grab_target: self.grab_target,
            grab_idx: self.grab_idx,
            grab_active: self.grab_active,
            grab_stiffness: self.grab_stiffness,
            _pad_legacy_floor: self.floor_y,
            linear_drag_per_sec: self.linear_drag_per_sec,
            constraint_batch_idx: self.constraint_batch_idx,
            _uniform_pad_vec2_u: self._uniform_pad_vec2_u,
            _uniform_pad_vec2_f: self._uniform_pad_vec2_f,
            _uniform_encase_reserve: self._uniform_encase_reserve,
        }
    }
}

/// The kernels read of the parameters what the simulation has: its times, counts, strengths, gravity
/// and grab.
pub proof fn law_params_read_back<S>(
    uniforms: ClothSimUniforms<S>,
    constraint_batch_count: u32,
    zero: S,
    inv_dt_sq: S,
)
    ensures
        ({
            let p = packed_params(uniforms, constraint_batch_count, zero, inv_dt_sq).as_params();
            &&& p.dt == uniforms.dt && p.inv_dt == uniforms.inv_dt && p.inv_dt_sq == inv_dt_sq
            &&& p.constraint_batch_count == constraint_batch_count
            &&& p.num_particles == uniforms.num_particles && p.num_tris == uniforms.num_tris
            &&& p.jacobi_omega == uniforms.jacobi_omega
            &&& p.inner_iterations == uniforms.inner_iterations
            &&& p.thickness == uniforms.thickness && p.coll_scale == uniforms.coll_scale
            &&& p.gravity == uniforms.gravity && p.grab_target == uniforms.grab_target
            &&& p.grab_idx == uniforms.grab_idx && p.grab_active == uniforms.grab_active
            &&& p.grab_stiffness == uniforms.grab_stiffness
            &&& p.linear_drag_per_sec == uniforms.linear_drag_per_sec
            &&& p.constraint_batch_idx == uniforms.constraint_batch_idx
        }),
{
}

/// The kernels read of the grid what the settings have: where it begins, how wide its cells are, how
/// many there are along each axis and in all, and by how many digits they are sorted.
pub proof fn law_grid_reads_back<S>(cfg: ClothSimConfig<S>, zero: S)
    ensures
        ({
            let g = packed_grid(cfg, zero).as_uniform();
            &&& g.grid_origin_pad[0] == cfg.coll_grid_origin[0]
            &&& g.grid_origin_pad[1] == cfg.coll_grid_origin[1]
            &&& g.grid_origin_pad[2] == cfg.coll_grid_origin[2]
            &&& g.inv_cell == cfg.coll_grid_inv_cell
            &&& g.gx == cfg.coll_grid_dims[0]
            &&& g.gy == cfg.coll_grid_dims[1]
            &&& g.gz == cfg.coll_grid_dims[2]
            &&& g.num_cells == cfg.coll_num_cells
            &&& g.num_particles == cfg.num_particles
            &&& g.radix_digits == cfg.coll_radix_digits
        }),
{
}

/// The grid of a mesh's settings is one that the kernels can sort by: its cells are numbered, and
/// the digits tell them all apart.
pub proof fn law_packed_grid_sorts<S>(
    grid: CollisionGrid<S>,
    cfg: ClothSimConfig<S>,
    packed: ClothCollGridGpu<S>,
)
    requires
        grid.wf(),
        cfg.coll_grid_dims == grid.dims,
        cfg.coll_num_cells == grid.dims[0] * grid.dims[1] * grid.dims[2],
        cfg.coll_num_cells <= pow256(cfg.coll_radix_digits as nat),
        packed.num_cells == cfg.coll_num_cells,
        packed.gx == cfg.coll_grid_dims[0],
        packed.gy == cfg.coll_grid_dims[1],
        packed.gz == cfg.coll_grid_dims[2],
        packed.radix_digits == cfg.coll_radix_digits,
    ensures
        packed.as_uniform().wf(),
        packed.as_uniform().num_cells <= pow256(packed.as_uniform().radix_digits as nat),
{
}

} // verus!
