//! The buffers on the device: their sizes, how kernels are bound to them, and what they start with.

use vstd::prelude::*;

use crate::frame::Kernel;

verus! {

/// Bytes of the substep parameters.
pub const PARAMS_BYTES: u64 = 128;

/// Bytes of the grid parameters.
pub const COLL_GRID_BYTES: u64 = 64;

/// Bytes of the radix pass number.
pub const RADIX_PASS_BYTES: u64 = 16;

/// Bytes of a table with a word for each of the 256 digits.
pub const RADIX_BYTES: u64 = 1024;

/// Distance of the dynamic uniform slots, in bytes.
pub const GS_BATCH_DYNAMIC_STRIDE: u32 = 256;

/// A buffer of the simulation.
#[derive(Clone, Copy, Debug, PartialEq, Eq, Structural)]
pub enum ClothBuffer {
    ParamsUniform,
    SimPos,
    JacState,
    JacA,
    JacB,
    Prev,
    Vel,
    Rest,
    InvMass,
    ConstraintBatchOffsets,
    NeighborOffsets,
    NeighborPacked,
    ConstraintI,
    ConstraintJ,
    ConstraintRest,
    ConstraintComp,
    ConstraintLambda,
    ConstraintDeltaLambda,
    Tri,
    AtomicColl,
    AtomicNorm,
    GsBatchDyn,
    CollGridUniform,
    CollRadixPassUniform,
    CollRadixHist,
    CollRadixHead,
    CollPermPing,
    CollPermPong,
    CollCellStart,
    CollCellEndExclusive,
}

/// What is bound to a slot: a buffer of the simulation, or one that the material reads too.
#[derive(Clone, Copy, Debug, PartialEq, Eq, Structural)]
pub enum Bound {
    Buffer(ClothBuffer),
    RenderPositions,
    RenderNormals,
}

/// How kernels use a slot.
#[derive(Clone, Copy, Debug, PartialEq, Eq, Structural)]
pub enum Access {
    Uniform,
    /// A uniform whose offset is given with the binding.
    DynamicUniform,
    ReadOnly,
    ReadWrite,
}

/// One slot of a binding; the slots are numbered from zero.
#[derive(Clone, Copy, Debug, PartialEq, Eq, Structural)]
pub struct Slot {
    pub bound: Bound,
    pub access: Access,
}

impl ClothBuffer {
    /// The label of the buffer in a capture.
    pub fn label(self) -> (r: &'static str)
        ensures
            r@ == self.label_text(),
    {
        match self {
            ClothBuffer::ParamsUniform => "cloth_sim_params_uniform",
            ClothBuffer::SimPos => "cloth_sim_pos",
            ClothBuffer::JacState => "cloth_jac_state",
            ClothBuffer::JacA => "cloth_jac_a",
            ClothBuffer::JacB => "cloth_jac_b",
            ClothBuffer::Prev => "cloth_prev",
            ClothBuffer::Vel => "cloth_vel",
            ClothBuffer::Rest => "cloth_rest",
            ClothBuffer::InvMass => "cloth_inv_mass",
            ClothBuffer::ConstraintBatchOffsets => "cloth_constraint_batch_offsets",
            ClothBuffer::NeighborOffsets => "cloth_neighbor_offsets",
            ClothBuffer::NeighborPacked => "cloth_neighbor_packed",
            ClothBuffer::ConstraintI => "cloth_constraint_i",
            ClothBuffer::ConstraintJ => "cloth_constraint_j",
            ClothBuffer::ConstraintRest => "cloth_constraint_rest",
            ClothBuffer::ConstraintComp => "cloth_constraint_comp",
            ClothBuffer::ConstraintLambda => "cloth_constraint_lambda",
            ClothBuffer::ConstraintDeltaLambda => "cloth_constraint_delta_lambda",
            ClothBuffer::Tri => "cloth_tri",
            ClothBuffer::AtomicColl => "cloth_atomic_coll",
            ClothBuffer::AtomicNorm => "cloth_atomic_norm",
            ClothBuffer::GsBatchDyn => "cloth_gs_batch_dyn",
            ClothBuffer::CollGridUniform => "cloth_coll_grid_uniform",
            ClothBuffer::CollRadixPassUniform => "cloth_coll_radix_pass_uniform",
            ClothBuffer::CollRadixHist => "cloth_coll_radix_hist",
            ClothBuffer::CollRadixHead => "cloth_coll_radix_head",
            ClothBuffer::CollPermPing => "cloth_coll_perm_ping",
            ClothBuffer::CollPermPong => "cloth_coll_perm_pong",
            ClothBuffer::CollCellStart => "cloth_coll_cell_start",
            ClothBuffer::CollCellEndExclusive => "cloth_coll_cell_end_exclusive",
        }
    }

    pub open spec fn label_text(self) -> Seq<char> {
        match self {
            ClothBuffer::ParamsUniform => "cloth_sim_params_uniform"@,
            ClothBuffer::SimPos => "cloth_sim_pos"@,
            ClothBuffer::JacState => "cloth_jac_state"@,
            ClothBuffer::JacA => "cloth_jac_a"@,
            ClothBuffer::JacB => "cloth_jac_b"@,
            ClothBuffer::Prev => "cloth_prev"@,
            ClothBuffer::Vel => "cloth_vel"@,
            ClothBuffer::Rest => "cloth_rest"@,
            ClothBuffer::InvMass => "cloth_inv_mass"@,
            ClothBuffer::ConstraintBatchOffsets => "cloth_constraint_batch_offsets"@,
            ClothBuffer::NeighborOffsets => "cloth_neighbor_offsets"@,
            ClothBuffer::NeighborPacked => "cloth_neighbor_packed"@,
            ClothBuffer::ConstraintI => "cloth_constraint_i"@,
            ClothBuffer::ConstraintJ => "cloth_constraint_j"@,
            ClothBuffer::ConstraintRest => "cloth_constraint_rest"@,
            ClothBuffer::ConstraintComp => "cloth_constraint_comp"@,
            ClothBuffer::ConstraintLambda => "cloth_constraint_lambda"@,
            ClothBuffer::ConstraintDeltaLambda => "cloth_constraint_delta_lambda"@,
            ClothBuffer::Tri => "cloth_tri"@,
            ClothBuffer::AtomicColl => "cloth_atomic_coll"@,
            ClothBuffer::AtomicNorm => "cloth_atomic_norm"@,
            ClothBuffer::GsBatchDyn => "cloth_gs_batch_dyn"@,
            ClothBuffer::CollGridUniform => "cloth_coll_grid_uniform"@,
            ClothBuffer::CollRadixPassUniform => "cloth_coll_radix_pass_uniform"@,
            ClothBuffer::CollRadixHist => "cloth_coll_radix_hist"@,
            ClothBuffer::CollRadixHead => "cloth_coll_radix_head"@,
            ClothBuffer::CollPermPing => "cloth_coll_perm_ping"@,
            ClothBuffer::CollPermPong => "cloth_coll_perm_pong"@,
            ClothBuffer::CollCellStart => "cloth_coll_cell_start"@,
            ClothBuffer::CollCellEndExclusive => "cloth_coll_cell_end_exclusive"@,
        }
    }

    /// The buffer is read as a uniform; the others are storage.
    pub open spec fn is_uniform_spec(self) -> bool {
        ||| self == ClothBuffer::ParamsUniform
        ||| self == ClothBuffer::GsBatchDyn
        ||| self == ClothBuffer::CollGridUniform
        ||| self == ClothBuffer::CollRadixPassUniform
    }

    pub fn is_uniform(self) -> (r: bool)
        ensures
            r == self.is_uniform_spec(),
    {
        match self {
            ClothBuffer::ParamsUniform => true,
            ClothBuffer::GsBatchDyn => true,
            ClothBuffer::CollGridUniform => true,
            ClothBuffer::CollRadixPassUniform => true,
            _ => false,
        }
    }
}

/// The counts that the sizes of the buffers depend on.
#[derive(Clone, Copy)]
pub struct BufferCounts {
    pub particles: u32,
    pub constraints: u32,
    pub tri_indices: u32,
    pub batches: u32,
    pub batch_offsets: u32,
    pub cells: u32,
    pub neighbor_offsets: u32,
    pub neighbor_entries: u32,
}

pub open spec fn max_of(a: u32, b: int) -> int {
    if a >= b {
        a as int
    } else {
        b
    }
}

fn larger(a: u64, b: u64) -> (r: u64)
    ensures
        r == if a >= b {
            a
        } else {
            b
        },
{
    if a >= b {
        a
    } else {
        b
    }
}

impl BufferCounts {
    /// The size of a buffer in bytes. Where something could be empty, there is room for a little.
    pub open spec fn bytes_spec(&self, b: ClothBuffer) -> int {
        match b {
            ClothBuffer::ParamsUniform => PARAMS_BYTES as int,
            ClothBuffer::SimPos => 16 * self.particles,
            ClothBuffer::JacState => 16 * self.particles,
            ClothBuffer::JacA => 16 * self.particles,
            ClothBuffer::JacB => 16 * self.particles,
            ClothBuffer::Prev => 16 * self.particles,
            ClothBuffer::Vel => 16 * self.particles,
            ClothBuffer::Rest => 16 * self.particles,
            ClothBuffer::InvMass => 4 * self.particles,
            ClothBuffer::ConstraintBatchOffsets => 4 * max_of(self.batch_offsets, 2),
            ClothBuffer::NeighborOffsets => 4 * max_of(self.neighbor_offsets, 2),
            ClothBuffer::NeighborPacked => 16 * max_of(self.neighbor_entries, 1),
            ClothBuffer::ConstraintI => 4 * max_of(self.constraints, 1),
            ClothBuffer::ConstraintJ => 4 * max_of(self.constraints, 1),
            ClothBuffer::ConstraintRest => 4 * max_of(self.constraints, 1),
            ClothBuffer::ConstraintComp => 4 * max_of(self.constraints, 1),
            ClothBuffer::ConstraintLambda => 4 * max_of(self.constraints, 1),
            ClothBuffer::ConstraintDeltaLambda => 4 * max_of(self.constraints, 1),
            ClothBuffer::Tri => 4 * self.tri_indices,
            ClothBuffer::AtomicColl => 12 * self.particles,
            ClothBuffer::AtomicNorm => 12 * self.particles,
            ClothBuffer::GsBatchDyn => 256 * max_of(self.batches, 1),
            ClothBuffer::CollGridUniform => COLL_GRID_BYTES as int,
            ClothBuffer::CollRadixPassUniform => RADIX_PASS_BYTES as int,
            ClothBuffer::CollRadixHist => RADIX_BYTES as int,
            ClothBuffer::CollRadixHead => RADIX_BYTES as int,
            ClothBuffer::CollPermPing => 4 * self.particles,
            ClothBuffer::CollPermPong => 4 * self.particles,
            ClothBuffer::CollCellStart => 4 * max_of(self.cells, 1),
            ClothBuffer::CollCellEndExclusive => 4 * max_of(self.cells, 1),
        }
    }

    pub fn bytes(&self, b: ClothBuffer) -> (r: u64)
        ensures
            r == self.bytes_spec(b),
    {
        match b {
            ClothBuffer::ParamsUniform => PARAMS_BYTES,
            ClothBuffer::SimPos => 16 * self.particles as u64,
            ClothBuffer::JacState => 16 * self.particles as u64,
            ClothBuffer::JacA => 16 * self.particles as u64,
            ClothBuffer::JacB => 16 * self.particles as u64,
            ClothBuffer::Prev => 16 * self.particles as u64,
            ClothBuffer::Vel => 16 * self.particles as u64,
            ClothBuffer::Rest => 16 * self.particles as u64,
            ClothBuffer::InvMass => 4 * self.particles as u64,
            ClothBuffer::ConstraintBatchOffsets => 4 * larger(self.batch_offsets as u64, 2),
            ClothBuffer::NeighborOffsets => 4 * larger(self.neighbor_offsets as u64, 2),
            ClothBuffer::NeighborPacked => 16 * larger(self.neighbor_entries as u64, 1),
            ClothBuffer::ConstraintI => 4 * larger(self.constraints as u64, 1),
            ClothBuffer::ConstraintJ => 4 * larger(self.constraints as u64, 1),
            ClothBuffer::ConstraintRest => 4 * larger(self.constraints as u64, 1),
            ClothBuffer::ConstraintComp => 4 * larger(self.constraints as u64, 1),
            ClothBuffer::ConstraintLambda => 4 * larger(self.constraints as u64, 1),
            ClothBuffer::ConstraintDeltaLambda => 4 * larger(self.constraints as u64, 1),
            ClothBuffer::Tri => 4 * self.tri_indices as u64,
            ClothBuffer::AtomicColl => 12 * self.particles as u64,
            ClothBuffer::AtomicNorm => 12 * self.particles as u64,
            ClothBuffer::GsBatchDyn => 256 * larger(self.batches as u64, 1),
            ClothBuffer::CollGridUniform => COLL_GRID_BYTES,
            ClothBuffer::CollRadixPassUniform => RADIX_PASS_BYTES,
            ClothBuffer::CollRadixHist => RADIX_BYTES,
            ClothBuffer::CollRadixHead => RADIX_BYTES,
            ClothBuffer::CollPermPing => 4 * self.particles as u64,
            ClothBuffer::CollPermPong => 4 * self.particles as u64,
            ClothBuffer::CollCellStart => 4 * larger(self.cells as u64, 1),
            ClothBuffer::CollCellEndExclusive => 4 * larger(self.cells as u64, 1),
        }
    }
}

/// The slots of the Gauss-Seidel kernels.
pub open spec fn gs_slots_spec() -> Seq<Slot> {
    seq![
        Slot { bound: Bound::Buffer(ClothBuffer::ParamsUniform), access: Access::Uniform },
        Slot { bound: Bound::Buffer(ClothBuffer::SimPos), access: Access::ReadWrite },
        Slot { bound: Bound::Buffer(ClothBuffer::JacState), access: Access::ReadWrite },
        Slot { bound: Bound::Buffer(ClothBuffer::Prev), access: Access::ReadWrite },
        Slot { bound: Bound::Buffer(ClothBuffer::Vel), access: Access::ReadWrite },
        Slot { bound: Bound::Buffer(ClothBuffer::Rest), access: Access::ReadOnly },
        Slot { bound: Bound::Buffer(ClothBuffer::InvMass), access: Access::ReadOnly },
        Slot { bound: Bound::Buffer(ClothBuffer::ConstraintBatchOffsets), access: Access::ReadOnly },
        Slot { bound: Bound::Buffer(ClothBuffer::ConstraintI), access: Access::ReadOnly },
        Slot { bound: Bound::Buffer(ClothBuffer::ConstraintJ), access: Access::ReadOnly },
        Slot { bound: Bound::Buffer(ClothBuffer::ConstraintRest), access: Access::ReadOnly },
        Slot { bound: Bound::Buffer(ClothBuffer::ConstraintComp), access: Access::ReadOnly },
        Slot { bound: Bound::Buffer(ClothBuffer::ConstraintLambda), access: Access::ReadWrite },
        Slot { bound: Bound::Buffer(ClothBuffer::ConstraintDeltaLambda), access: Access::ReadWrite },
        Slot { bound: Bound::Buffer(ClothBuffer::Tri), access: Access::ReadOnly },
        Slot { bound: Bound::RenderPositions, access: Access::ReadWrite },
        Slot { bound: Bound::RenderNormals, access: Access::ReadWrite },
        Slot { bound: Bound::Buffer(ClothBuffer::AtomicColl), access: Access::ReadWrite },
        Slot { bound: Bound::Buffer(ClothBuffer::AtomicNorm), access: Access::ReadWrite },
        Slot { bound: Bound::Buffer(ClothBuffer::GsBatchDyn), access: Access::DynamicUniform },
        Slot { bound: Bound::Buffer(ClothBuffer::CollGridUniform), access: Access::Uniform },
        Slot { bound: Bound::Buffer(ClothBuffer::CollRadixPassUniform), access: Access::Uniform },
        Slot { bound: Bound::Buffer(ClothBuffer::CollRadixHist), access: Access::ReadWrite },
        Slot { bound: Bound::Buffer(ClothBuffer::CollRadixHead), access: Access::ReadWrite },
        Slot { bound: Bound::Buffer(ClothBuffer::CollPermPing), access: Access::ReadWrite },
        Slot { bound: Bound::Buffer(ClothBuffer::CollPermPong), access: Access::ReadWrite },
        Slot { bound: Bound::Buffer(ClothBuffer::CollCellStart), access: Access::ReadWrite },
        Slot { bound: Bound::Buffer(ClothBuffer::CollCellEndExclusive), access: Access::ReadWrite },
    ]
}

/// The slots of the Jacobi kernels, which read positions from `jac_in` and write them to `jac_out`.
pub open spec fn jacobi_slots_spec(jac_in: ClothBuffer, jac_out: ClothBuffer) -> Seq<Slot> {
    seq![
        Slot { bound: Bound::Buffer(ClothBuffer::ParamsUniform), access: Access::Uniform },
        Slot { bound: Bound::Buffer(ClothBuffer::SimPos), access: Access::ReadWrite },
        Slot { bound: Bound::Buffer(jac_in), access: Access::ReadOnly },
        Slot { bound: Bound::Buffer(jac_out), access: Access::ReadWrite },
        Slot { bound: Bound::Buffer(ClothBuffer::Prev), access: Access::ReadWrite },
        Slot { bound: Bound::Buffer(ClothBuffer::Vel), access: Access::ReadWrite },
        Slot { bound: Bound::Buffer(ClothBuffer::Rest), access: Access::ReadOnly },
        Slot { bound: Bound::Buffer(ClothBuffer::InvMass), access: Access::ReadOnly },
        Slot { bound: Bound::Buffer(ClothBuffer::NeighborOffsets), access: Access::ReadOnly },
        Slot { bound: Bound::Buffer(ClothBuffer::NeighborPacked), access: Access::ReadOnly },
        Slot { bound: Bound::Buffer(ClothBuffer::ConstraintI), access: Access::ReadOnly },
        Slot { bound: Bound::Buffer(ClothBuffer::ConstraintJ), access: Access::ReadOnly },
        Slot { bound: Bound::Buffer(ClothBuffer::ConstraintRest), access: Access::ReadOnly },
        Slot { bound: Bound::Buffer(ClothBuffer::ConstraintComp), access: Access::ReadOnly },
        Slot { bound: Bound::Buffer(ClothBuffer::ConstraintLambda), access: Access::ReadWrite },
        Slot { bound: Bound::Buffer(ClothBuffer::ConstraintDeltaLambda), access: Access::ReadWrite },
        Slot { bound: Bound::Buffer(ClothBuffer::Tri), access: Access::ReadOnly },
        Slot { bound: Bound::RenderPositions, access: Access::ReadWrite },
        Slot { bound: Bound::RenderNormals, access: Access::ReadWrite },
        Slot { bound: Bound::Buffer(ClothBuffer::AtomicColl), access: Access::ReadWrite },
        Slot { bound: Bound::Buffer(ClothBuffer::AtomicNorm), access: Access::ReadWrite },
        Slot { bound: Bound::Buffer(ClothBuffer::CollGridUniform), access: Access::Uniform },
        Slot { bound: Bound::Buffer(ClothBuffer::CollRadixPassUniform), access: Access::Uniform },
        Slot { bound: Bound::Buffer(ClothBuffer::CollRadixHist), access: Access::ReadWrite },
        Slot { bound: Bound::Buffer(ClothBuffer::CollRadixHead), access: Access::ReadWrite },
        Slot { bound: Bound::Buffer(ClothBuffer::CollPermPing), access: Access::ReadWrite },
        Slot { bound: Bound::Buffer(ClothBuffer::CollPermPong), access: Access::ReadWrite },
        Slot { bound: Bound::Buffer(ClothBuffer::CollCellStart), access: Access::ReadWrite },
        Slot { bound: Bound::Buffer(ClothBuffer::CollCellEndExclusive), access: Access::ReadWrite },
    ]
}

/// The slots of the Gauss-Seidel kernels.
pub fn gs_slots() -> (r: Vec<Slot>)
    ensures
        r@ == gs_slots_spec(),
{
    let r: Vec<Slot> = vec![
        Slot { bound: Bound::Buffer(ClothBuffer::ParamsUniform), access: Access::Uniform },
        Slot { bound: Bound::Buffer(ClothBuffer::SimPos), access: Access::ReadWrite },
        Slot { bound: Bound::Buffer(ClothBuffer::JacState), access: Access::ReadWrite },
        Slot { bound: Bound::Buffer(ClothBuffer::Prev), access: Access::ReadWrite },
        Slot { bound: Bound::Buffer(ClothBuffer::Vel), access: Access::ReadWrite },
        Slot { bound: Bound::Buffer(ClothBuffer::Rest), access: Access::ReadOnly },
        Slot { bound: Bound::Buffer(ClothBuffer::InvMass), access: Access::ReadOnly },
        Slot { bound: Bound::Buffer(ClothBuffer::ConstraintBatchOffsets), access: Access::ReadOnly },
        Slot { bound: Bound::Buffer(ClothBuffer::ConstraintI), access: Access::ReadOnly },
        Slot { bound: Bound::Buffer(ClothBuffer::ConstraintJ), access: Access::ReadOnly },
        Slot { bound: Bound::Buffer(ClothBuffer::ConstraintRest), access: Access::ReadOnly },
        Slot { bound: Bound::Buffer(ClothBuffer::ConstraintComp), access: Access::ReadOnly },
        Slot { bound: Bound::Buffer(ClothBuffer::ConstraintLambda), access: Access::ReadWrite },
        Slot { bound: Bound::Buffer(ClothBuffer::ConstraintDeltaLambda), access: Access::ReadWrite },
        Slot { bound: Bound::Buffer(ClothBuffer::Tri), access: Access::ReadOnly },
        Slot { bound: Bound::RenderPositions, access: Access::ReadWrite },
        Slot { bound: Bound::RenderNormals, access: Access::ReadWrite },
        Slot { bound: Bound::Buffer(ClothBuffer::AtomicColl), access: Access::ReadWrite },
        Slot { bound: Bound::Buffer(ClothBuffer::AtomicNorm), access: Access::ReadWrite },
        Slot { bound: Bound::Buffer(ClothBuffer::GsBatchDyn), access: Access::DynamicUniform },
        Slot { bound: Bound::Buffer(ClothBuffer::CollGridUniform), access: Access::Uniform },
        Slot { bound: Bound::Buffer(ClothBuffer::CollRadixPassUniform), access: Access::Uniform },
        Slot { bound: Bound::Buffer(ClothBuffer::CollRadixHist), access: Access::ReadWrite },
        Slot { bound: Bound::Buffer(ClothBuffer::CollRadixHead), access: Access::ReadWrite },
        Slot { bound: Bound::Buffer(ClothBuffer::CollPermPing), access: Access::ReadWrite },
        Slot { bound: Bound::Buffer(ClothBuffer::CollPermPong), access: Access::ReadWrite },
        Slot { bound: Bound::Buffer(ClothBuffer::CollCellStart), access: Access::ReadWrite },
        Slot { bound: Bound::Buffer(ClothBuffer::CollCellEndExclusive), access: Access::ReadWrite },
    ];
    assert(r@ =~= gs_slots_spec());
    r
}

/// The slots of the Jacobi kernels, which read positions from `jac_in` and write them to `jac_out`.
pub fn jacobi_slots(jac_in: ClothBuffer, jac_out: ClothBuffer) -> (r: Vec<Slot>)
    ensures
        r@ == jacobi_slots_spec(jac_in, jac_out),
{
    let r: Vec<Slot> = vec![
        Slot { bound: Bound::Buffer(ClothBuffer::ParamsUniform), access: Access::Uniform },
        Slot { bound: Bound::Buffer(ClothBuffer::SimPos), access: Access::ReadWrite },
        Slot { bound: Bound::Buffer(jac_in), access: Access::ReadOnly },
        Slot { bound: Bound::Buffer(jac_out), access: Access::ReadWrite },
        Slot { bound: Bound::Buffer(ClothBuffer::Prev), access: Access::ReadWrite },
        Slot { bound: Bound::Buffer(ClothBuffer::Vel), access: Access::ReadWrite },
        Slot { bound: Bound::Buffer(ClothBuffer::Rest), access: Access::ReadOnly },
        Slot { bound: Bound::Buffer(ClothBuffer::InvMass), access: Access::ReadOnly },
        Slot { bound: Bound::Buffer(ClothBuffer::NeighborOffsets), access: Access::ReadOnly },
        Slot { bound: Bound::Buffer(ClothBuffer::NeighborPacked), access: Access::ReadOnly },
        Slot { bound: Bound::Buffer(ClothBuffer::ConstraintI), access: Access::ReadOnly },
        Slot { bound: Bound::Buffer(ClothBuffer::ConstraintJ), access: Access::ReadOnly },
        Slot { bound: Bound::Buffer(ClothBuffer::ConstraintRest), access: Access::ReadOnly },
        Slot { bound: Bound::Buffer(ClothBuffer::ConstraintComp), access: Access::ReadOnly },
        Slot { bound: Bound::Buffer(ClothBuffer::ConstraintLambda), access: Access::ReadWrite },
        Slot { bound: Bound::Buffer(ClothBuffer::ConstraintDeltaLambda), access: Access::ReadWrite },
        Slot { bound: Bound::Buffer(ClothBuffer::Tri), access: Access::ReadOnly },
        Slot { bound: Bound::RenderPositions, access: Access::ReadWrite },
        Slot { bound: Bound::RenderNormals, access: Access::ReadWrite },
        Slot { bound: Bound::Buffer(ClothBuffer::AtomicColl), access: Access::ReadWrite },
        Slot { bound: Bound::Buffer(ClothBuffer::AtomicNorm), access: Access::ReadWrite },
        Slot { bound: Bound::Buffer(ClothBuffer::CollGridUniform), access: Access::Uniform },
        Slot { bound: Bound::Buffer(ClothBuffer::CollRadixPassUniform), access: Access::Uniform },
        Slot { bound: Bound::Buffer(ClothBuffer::CollRadixHist), access: Access::ReadWrite },
        Slot { bound: Bound::Buffer(ClothBuffer::CollRadixHead), access: Access::ReadWrite },
        Slot { bound: Bound::Buffer(ClothBuffer::CollPermPing), access: Access::ReadWrite },
        Slot { bound: Bound::Buffer(ClothBuffer::CollPermPong), access: Access::ReadWrite },
        Slot { bound: Bound::Buffer(ClothBuffer::CollCellStart), access: Access::ReadWrite },
        Slot { bound: Bound::Buffer(ClothBuffer::CollCellEndExclusive), access: Access::ReadWrite },
    ];
    assert(r@ =~= jacobi_slots_spec(jac_in, jac_out));
    r
}

/// The least size that the layout of a slot demands of what is bound to it.
pub open spec fn min_bytes_spec(counts: BufferCounts, bound: Bound) -> Option<int> {
    match bound {
        Bound::Buffer(b) => match b {
            ClothBuffer::GsBatchDyn => Some(GS_BATCH_DYNAMIC_STRIDE as int),
            ClothBuffer::ParamsUniform
            | ClothBuffer::CollGridUniform
            | ClothBuffer::CollRadixPassUniform
            | ClothBuffer::CollRadixHist
            | ClothBuffer::CollRadixHead
            | ClothBuffer::CollPermPing
            | ClothBuffer::CollPermPong
            | ClothBuffer::CollCellStart
            | ClothBuffer::CollCellEndExclusive => Some(counts.bytes_spec(b)),
            _ => None,
        },
        _ => None,
    }
}

/// The least size that the layout of a slot demands of what is bound to it.
pub fn min_bytes(counts: &BufferCounts, bound: Bound) -> (r: Option<u64>)
    ensures
        r is Some <==> min_bytes_spec(*counts, bound) is Some,
        r is Some ==> r->0 == min_bytes_spec(*counts, bound)->0,
{
    match bound {
        Bound::Buffer(b) => match b {
            ClothBuffer::GsBatchDyn => Some(GS_BATCH_DYNAMIC_STRIDE as u64),
            ClothBuffer::ParamsUniform
            | ClothBuffer::CollGridUniform
            | ClothBuffer::CollRadixPassUniform
            | ClothBuffer::CollRadixHist
            | ClothBuffer::CollRadixHead
            | ClothBuffer::CollPermPing
            | ClothBuffer::CollPermPong
            | ClothBuffer::CollCellStart
            | ClothBuffer::CollCellEndExclusive => Some(counts.bytes(b)),
            _ => None,
        },
        _ => None,
    }
}

/// Every buffer is at least as large as its slot demands, and no demanded size is zero unless there
/// are no particles.
pub proof fn law_buffers_fill_slots(counts: BufferCounts, b: ClothBuffer)
    ensures
        min_bytes_spec(counts, Bound::Buffer(b)) is Some ==> {
            &&& min_bytes_spec(counts, Bound::Buffer(b))->0 <= counts.bytes_spec(b)
            &&& counts.particles > 0 ==> min_bytes_spec(counts, Bound::Buffer(b))->0 > 0
        },
{
}

/// Which of the two constraint solvers runs.
#[derive(Clone, Copy, Debug, PartialEq, Eq, Structural)]
pub enum Solver {
    GaussSeidel,
    Jacobi,
}

/// The buffers that a solver creates.
pub open spec fn solver_buffers_spec(solver: Solver) -> Seq<ClothBuffer> {
    match solver {
        Solver::GaussSeidel => seq![
            ClothBuffer::ParamsUniform,
            ClothBuffer::SimPos,
            ClothBuffer::JacState,
            ClothBuffer::Prev,
            ClothBuffer::Vel,
            ClothBuffer::Rest,
            ClothBuffer::InvMass,
            ClothBuffer::ConstraintBatchOffsets,
            ClothBuffer::ConstraintI,
            ClothBuffer::ConstraintJ,
            ClothBuffer::ConstraintRest,
            ClothBuffer::ConstraintComp,
            ClothBuffer::ConstraintLambda,
            ClothBuffer::ConstraintDeltaLambda,
            ClothBuffer::Tri,
            ClothBuffer::AtomicColl,
            ClothBuffer::AtomicNorm,
            ClothBuffer::GsBatchDyn,
            ClothBuffer::CollGridUniform,
            ClothBuffer::CollRadixPassUniform,
            ClothBuffer::CollRadixHist,
            ClothBuffer::CollRadixHead,
            ClothBuffer::CollPermPing,
            ClothBuffer::CollPermPong,
            ClothBuffer::CollCellStart,
            ClothBuffer::CollCellEndExclusive,
        ],
        Solver::Jacobi => seq![
            ClothBuffer::ParamsUniform,
            ClothBuffer::SimPos,
            ClothBuffer::JacA,
            ClothBuffer::JacB,
            ClothBuffer::Prev,
            ClothBuffer::Vel,
            ClothBuffer::Rest,
            ClothBuffer::InvMass,
            ClothBuffer::NeighborOffsets,
            ClothBuffer::NeighborPacked,
            ClothBuffer::ConstraintI,
            ClothBuffer::ConstraintJ,
            ClothBuffer::ConstraintRest,
            ClothBuffer::ConstraintComp,
            ClothBuffer::ConstraintLambda,
            ClothBuffer::ConstraintDeltaLambda,
            ClothBuffer::Tri,
            ClothBuffer::AtomicColl,
            ClothBuffer::AtomicNorm,
            ClothBuffer::CollGridUniform,
            ClothBuffer::CollRadixPassUniform,
            ClothBuffer::CollRadixHist,
            ClothBuffer::CollRadixHead,
            ClothBuffer::CollPermPing,
            ClothBuffer::CollPermPong,
            ClothBuffer::CollCellStart,
            ClothBuffer::CollCellEndExclusive,
        ],
    }
}

/// The buffers that a solver creates.
pub fn solver_buffers(solver: Solver) -> (r: Vec<ClothBuffer>)
    ensures
        r@ == solver_buffers_spec(solver),
{
    match solver {
        Solver::GaussSeidel => {
            let r: Vec<ClothBuffer> = vec![
                ClothBuffer::ParamsUniform,
                ClothBuffer::SimPos,
                ClothBuffer::JacState,
                ClothBuffer::Prev,
                ClothBuffer::Vel,
                ClothBuffer::Rest,
                ClothBuffer::InvMass,
                ClothBuffer::ConstraintBatchOffsets,
                ClothBuffer::ConstraintI,
                ClothBuffer::ConstraintJ,
                ClothBuffer::ConstraintRest,
                ClothBuffer::ConstraintComp,
                ClothBuffer::ConstraintLambda,
                ClothBuffer::ConstraintDeltaLambda,
                ClothBuffer::Tri,
                ClothBuffer::AtomicColl,
                ClothBuffer::AtomicNorm,
                ClothBuffer::GsBatchDyn,
                ClothBuffer::CollGridUniform,
                ClothBuffer::CollRadixPassUniform,
                ClothBuffer::CollRadixHist,
                ClothBuffer::CollRadixHead,
                ClothBuffer::CollPermPing,
                ClothBuffer::CollPermPong,
                ClothBuffer::CollCellStart,
                ClothBuffer::CollCellEndExclusive,
            ];
            assert(r@ =~= solver_buffers_spec(solver));
            r
        },
        Solver::Jacobi => {
            let r: Vec<ClothBuffer> = vec![
                ClothBuffer::ParamsUniform,
                ClothBuffer::SimPos,
                ClothBuffer::JacA,
                ClothBuffer::JacB,
                ClothBuffer::Prev,
                ClothBuffer::Vel,
                ClothBuffer::Rest,
                ClothBuffer::InvMass,
                ClothBuffer::NeighborOffsets,
                ClothBuffer::NeighborPacked,
                ClothBuffer::ConstraintI,
                ClothBuffer::ConstraintJ,
                ClothBuffer::ConstraintRest,
                ClothBuffer::ConstraintComp,
                ClothBuffer::ConstraintLambda,
                ClothBuffer::ConstraintDeltaLambda,
                ClothBuffer::Tri,
                ClothBuffer::AtomicColl,
                ClothBuffer::AtomicNorm,
                ClothBuffer::CollGridUniform,
                ClothBuffer::CollRadixPassUniform,
                ClothBuffer::CollRadixHist,
                ClothBuffer::CollRadixHead,
                ClothBuffer::CollPermPing,
                ClothBuffer::CollPermPong,
                ClothBuffer::CollCellStart,
                ClothBuffer::CollCellEndExclusive,
            ];
            assert(r@ =~= solver_buffers_spec(solver));
            r
        },
    }
}

/// The kernels of a solver.
pub open spec fn solver_kernels_spec(solver: Solver) -> Seq<Kernel> {
    match solver {
        Solver::GaussSeidel => seq![
            Kernel::PredictCopySimToJac,
            Kernel::CopyJacToSim,
            Kernel::ClearConstraintLambda,
            Kernel::GsEdges,
            Kernel::PostVelocity,
            Kernel::ClearAtomics,
            Kernel::CollCellBoundsClear,
            Kernel::CollPermIdentityPing,
            Kernel::CollHistogramClear,
            Kernel::CollRadixDigitCount,
            Kernel::CollRadixExclusiveBasesHeads,
            Kernel::CollRadixDigitScatter,
            Kernel::CollSortedBuildCellRanges,
            Kernel::CollideGridCells,
            Kernel::CollideApply,
            Kernel::ClearNormAtomics,
            Kernel::AccumulateNormals,
            Kernel::FinalizeNormals,
        ],
        Solver::Jacobi => seq![
            Kernel::PredictCopySimToJac,
            Kernel::CopyJacToSim,
            Kernel::ClearConstraintLambda,
            Kernel::JacobiEdges,
            Kernel::JacobiGather,
            Kernel::PostVelocity,
            Kernel::ClearAtomics,
            Kernel::CollCellBoundsClear,
            Kernel::CollPermIdentityPing,
            Kernel::CollHistogramClear,
            Kernel::CollRadixDigitCount,
            Kernel::CollRadixExclusiveBasesHeads,
            Kernel::CollRadixDigitScatter,
            Kernel::CollSortedBuildCellRanges,
            Kernel::CollideGridCells,
            Kernel::CollideApply,
            Kernel::ClearNormAtomics,
            Kernel::AccumulateNormals,
            Kernel::FinalizeNormals,
        ],
    }
}

/// The kernels of a solver.
pub fn solver_kernels(solver: Solver) -> (r: Vec<Kernel>)
    ensures
        r@ == solver_kernels_spec(solver),
{
    match solver {
        Solver::GaussSeidel => {
            let r: Vec<Kernel> = vec![
                Kernel::PredictCopySimToJac,
                Kernel::CopyJacToSim,
                Kernel::ClearConstraintLambda,
                Kernel::GsEdges,
                Kernel::PostVelocity,
                Kernel::ClearAtomics,
                Kernel::CollCellBoundsClear,
                Kernel::CollPermIdentityPing,
                Kernel::CollHistogramClear,
                Kernel::CollRadixDigitCount,
                Kernel::CollRadixExclusiveBasesHeads,
                Kernel::CollRadixDigitScatter,
                Kernel::CollSortedBuildCellRanges,
                Kernel::CollideGridCells,
                Kernel::CollideApply,
                Kernel::ClearNormAtomics,
                Kernel::AccumulateNormals,
                Kernel::FinalizeNormals,
            ];
            assert(r@ =~= solver_kernels_spec(solver));
            r
        },
        Solver::Jacobi => {
            let r: Vec<Kernel> = vec![
                Kernel::PredictCopySimToJac,
                Kernel::CopyJacToSim,
                Kernel::ClearConstraintLambda,
                Kernel::JacobiEdges,
                Kernel::JacobiGather,
                Kernel::PostVelocity,
                Kernel::ClearAtomics,
                Kernel::CollCellBoundsClear,
                Kernel::CollPermIdentityPing,
                Kernel::CollHistogramClear,
                Kernel::CollRadixDigitCount,
                Kernel::CollRadixExclusiveBasesHeads,
                Kernel::CollRadixDigitScatter,
                Kernel::CollSortedBuildCellRanges,
                Kernel::CollideGridCells,
                Kernel::CollideApply,
                Kernel::ClearNormAtomics,
                Kernel::AccumulateNormals,
                Kernel::FinalizeNormals,
            ];
            assert(r@ =~= solver_kernels_spec(solver));
            r
        },
    }
}

/// The kernels of a solver that are waited for before a frame runs.
pub open spec fn awaited_kernels_spec(solver: Solver) -> Seq<Kernel> {
    match solver {
        Solver::GaussSeidel => seq![
            Kernel::PredictCopySimToJac,
            Kernel::GsEdges,
            Kernel::CollideGridCells,
            Kernel::FinalizeNormals,
        ],
        Solver::Jacobi => seq![
            Kernel::PredictCopySimToJac,
            Kernel::JacobiEdges,
            Kernel::CollideGridCells,
            Kernel::FinalizeNormals,
        ],
    }
}

/// The kernels of a solver that are waited for before a frame runs.
pub fn awaited_kernels(solver: Solver) -> (r: Vec<Kernel>)
    ensures
        r@ == awaited_kernels_spec(solver),
{
    match solver {
        Solver::GaussSeidel => {
            let r: Vec<Kernel> = vec![
                Kernel::PredictCopySimToJac,
                Kernel::GsEdges,
                Kernel::CollideGridCells,
                Kernel::FinalizeNormals,
            ];
            assert(r@ =~= awaited_kernels_spec(solver));
            r
        },
        Solver::Jacobi => {
            let r: Vec<Kernel> = vec![
                Kernel::PredictCopySimToJac,
                Kernel::JacobiEdges,
                Kernel::CollideGridCells,
                Kernel::FinalizeNormals,
            ];
            assert(r@ =~= awaited_kernels_spec(solver));
            r
        },
    }
}

/// The kernels that are waited for are kernels of the solver.
pub proof fn law_awaited_are_kernels(solver: Solver, k: int)
    requires
        0 <= k < awaited_kernels_spec(solver).len(),
    ensures
        solver_kernels_spec(solver).contains(awaited_kernels_spec(solver)[k]),
{
    let all = solver_kernels_spec(solver);
    assert(all[0] == Kernel::PredictCopySimToJac);
    assert(all[3] == awaited_kernels_spec(solver)[1]);
    let last = all.len() - 1;
    assert(all[last] == Kernel::FinalizeNormals);
    assert(all[last - 4] == Kernel::CollideGridCells);
}

/// What a buffer starts with.
#[derive(Clone, Copy, Debug, PartialEq, Eq, Structural)]
pub enum Source {
    Params,
    CollGrid,
    /// The number of each batch, one to a dynamic uniform slot.
    BatchSlots,
    /// The offsets of the batches, at least two.
    BatchOffsets,
    /// The offsets of the neighbor slices, at least two.
    NeighborOffsets,
    NeighborPacked,
    ConstraintI,
    ConstraintJ,
    ConstraintRest,
    ConstraintComp,
    TriIndices,
    InvMass,
    RestPositions,
    InitialPositions,
    /// Zeros, as many as the buffer holds.
    Zeros,
}

#[derive(Clone, Copy, Debug, PartialEq, Eq, Structural)]
pub struct Upload {
    pub to: ClothBuffer,
    pub from: Source,
}

/// The tables of the constraints, where there are any.
pub open spec fn constraint_uploads(counts: BufferCounts) -> Seq<Upload> {
    if counts.constraints > 0 {
        seq![
            Upload { to: ClothBuffer::ConstraintI, from: Source::ConstraintI },
            Upload { to: ClothBuffer::ConstraintJ, from: Source::ConstraintJ },
            Upload { to: ClothBuffer::ConstraintRest, from: Source::ConstraintRest },
            Upload { to: ClothBuffer::ConstraintComp, from: Source::ConstraintComp },
        ]
    } else {
        seq![]
    }
}

/// The packed neighbors, where there are any.
pub open spec fn packed_uploads(counts: BufferCounts) -> Seq<Upload> {
    if counts.neighbor_entries > 0 {
        seq![
            Upload { to: ClothBuffer::NeighborPacked, from: Source::NeighborPacked },
        ]
    } else {
        seq![]
    }
}

/// What is written when the simulation starts, in order.
pub open spec fn initial_uploads_spec(solver: Solver, counts: BufferCounts) -> Seq<Upload> {
    match solver {
        Solver::GaussSeidel => seq![
            Upload { to: ClothBuffer::ParamsUniform, from: Source::Params },
            Upload { to: ClothBuffer::GsBatchDyn, from: Source::BatchSlots },
            Upload { to: ClothBuffer::CollGridUniform, from: Source::CollGrid },
            Upload { to: ClothBuffer::CollRadixPassUniform, from: Source::Zeros },
        ] + constraint_uploads(counts) + seq![
            Upload { to: ClothBuffer::ConstraintLambda, from: Source::Zeros },
            Upload { to: ClothBuffer::ConstraintDeltaLambda, from: Source::Zeros },
            Upload { to: ClothBuffer::ConstraintBatchOffsets, from: Source::BatchOffsets },
            Upload { to: ClothBuffer::Tri, from: Source::TriIndices },
            Upload { to: ClothBuffer::InvMass, from: Source::InvMass },
            Upload { to: ClothBuffer::Rest, from: Source::RestPositions },
            Upload { to: ClothBuffer::SimPos, from: Source::InitialPositions },
            Upload { to: ClothBuffer::JacState, from: Source::InitialPositions },
            Upload { to: ClothBuffer::Prev, from: Source::InitialPositions },
            Upload { to: ClothBuffer::Vel, from: Source::Zeros },
        ],
        Solver::Jacobi => seq![
            Upload { to: ClothBuffer::ParamsUniform, from: Source::Params },
            Upload { to: ClothBuffer::CollGridUniform, from: Source::CollGrid },
            Upload { to: ClothBuffer::CollRadixPassUniform, from: Source::Zeros },
        ] + constraint_uploads(counts) + seq![
            Upload { to: ClothBuffer::ConstraintLambda, from: Source::Zeros },
            Upload { to: ClothBuffer::ConstraintDeltaLambda, from: Source::Zeros },
            Upload { to: ClothBuffer::NeighborOffsets, from: Source::NeighborOffsets },
        ] + packed_uploads(counts) + seq![
            Upload { to: ClothBuffer::Tri, from: Source::TriIndices },
            Upload { to: ClothBuffer::InvMass, from: Source::InvMass },
            Upload { to: ClothBuffer::Rest, from: Source::RestPositions },
            Upload { to: ClothBuffer::SimPos, from: Source::InitialPositions },
            Upload { to: ClothBuffer::JacA, from: Source::InitialPositions },
            Upload { to: ClothBuffer::JacB, from: Source::InitialPositions },
            Upload { to: ClothBuffer::Prev, from: Source::InitialPositions },
            Upload { to: ClothBuffer::Vel, from: Source::Zeros },
        ],
    }
}

/// What is written when the simulation starts, in order.
pub fn initial_uploads(solver: Solver, counts: &BufferCounts) -> (out: Vec<Upload>)
    ensures
        out@ == initial_uploads_spec(solver, *counts),
{
    let mut out: Vec<Upload> = Vec::new();
    out.push(Upload { to: ClothBuffer::ParamsUniform, from: Source::Params });
    if solver == Solver::GaussSeidel {
        out.push(Upload { to: ClothBuffer::GsBatchDyn, from: Source::BatchSlots });
    }
    out.push(Upload { to: ClothBuffer::CollGridUniform, from: Source::CollGrid });
    out.push(Upload { to: ClothBuffer::CollRadixPassUniform, from: Source::Zeros });
    if counts.constraints > 0 {
        out.push(Upload { to: ClothBuffer::ConstraintI, from: Source::ConstraintI });
        out.push(Upload { to: ClothBuffer::ConstraintJ, from: Source::ConstraintJ });
        out.push(Upload { to: ClothBuffer::ConstraintRest, from: Source::ConstraintRest });
        out.push(Upload { to: ClothBuffer::ConstraintComp, from: Source::ConstraintComp });
    }
    out.push(Upload { to: ClothBuffer::ConstraintLambda, from: Source::Zeros });
    out.push(Upload { to: ClothBuffer::ConstraintDeltaLambda, from: Source::Zeros });
    match solver {
        Solver::GaussSeidel => {
            out.push(
                Upload { to: ClothBuffer::ConstraintBatchOffsets, from: Source::BatchOffsets },
            );
        },
        Solver::Jacobi => {
            out.push(Upload { to: ClothBuffer::NeighborOffsets, from: Source::NeighborOffsets });
            if counts.neighbor_entries > 0 {
                out.push(Upload { to: ClothBuffer::NeighborPacked, from: Source::NeighborPacked });
            }
        },
    }
    out.push(Upload { to: ClothBuffer::Tri, from: Source::TriIndices });
    out.push(Upload { to: ClothBuffer::InvMass, from: Source::InvMass });
    out.push(Upload { to: ClothBuffer::Rest, from: Source::RestPositions });
    out.push(Upload { to: ClothBuffer::SimPos, from: Source::InitialPositions });
    match solver {
        Solver::GaussSeidel => {
            out.push(Upload { to: ClothBuffer::JacState, from: Source::InitialPositions });
        },
        Solver::Jacobi => {
            out.push(Upload { to: ClothBuffer::JacA, from: Source::InitialPositions });
            out.push(Upload { to: ClothBuffer::JacB, from: Source::InitialPositions });
        },
    }
    out.push(Upload { to: ClothBuffer::Prev, from: Source::InitialPositions });
    out.push(Upload { to: ClothBuffer::Vel, from: Source::Zeros });
    assert(out@ =~= initial_uploads_spec(solver, *counts));
    out
}

/// The bytes that an upload writes.
pub open spec fn upload_bytes(counts: BufferCounts, u: Upload) -> int {
    match u.from {
        Source::Params => PARAMS_BYTES as int,
        Source::CollGrid => COLL_GRID_BYTES as int,
        Source::BatchSlots => 256 * max_of(counts.batches, 1),
        Source::BatchOffsets => 4 * max_of(counts.batch_offsets, 2),
        Source::NeighborOffsets => 4 * max_of(counts.neighbor_offsets, 2),
        Source::NeighborPacked => 16 * counts.neighbor_entries,
        Source::ConstraintI
        | Source::ConstraintJ
        | Source::ConstraintRest
        | Source::ConstraintComp => 4 * counts.constraints,
        Source::TriIndices => 4 * counts.tri_indices,
        Source::InvMass => 4 * counts.particles,
        Source::RestPositions | Source::InitialPositions => 16 * counts.particles,
        Source::Zeros => counts.bytes_spec(u.to),
    }
}

/// What is written when the simulation starts fits its buffer.
pub proof fn law_uploads_fit(solver: Solver, counts: BufferCounts, k: int)
    requires
        0 <= k < initial_uploads_spec(solver, counts).len(),
    ensures
        upload_bytes(counts, initial_uploads_spec(solver, counts)[k]) == counts.bytes_spec(
            initial_uploads_spec(solver, counts)[k].to,
        ),
{
}

/// The bytes of the dynamic uniform slots: slot `b` starts with the number `b`, least byte first.
pub open spec fn batch_slots_spec(count: int) -> Seq<u8> {
    let slots = if count == 0 {
        1
    } else {
        count
    };
    Seq::new(
        (256 * slots) as nat,
        |k: int|
            {
                let b = k / 256;
                let j = k % 256;
                if b >= count {
                    0
                } else if j == 0 {
                    (b % 256) as u8
                } else if j == 1 {
                    (b / 0x100 % 256) as u8
                } else if j == 2 {
                    (b / 0x1_0000 % 256) as u8
                } else if j == 3 {
                    (b / 0x100_0000 % 256) as u8
                } else {
                    0
                }
            },
    )
}

/// The bytes of the dynamic uniform slots.
pub fn batch_slots(count: u32) -> (r: Vec<u8>)
    requires
        256 * count <= usize::MAX,
    ensures
        r@ == batch_slots_spec(count as int),
{
    let total: usize = 256 * if count == 0 {
        1
    } else {
        count as usize
    };
    let mut r: Vec<u8> = Vec::new();
    let mut k: usize = 0;
    while k < total
        invariant
            k <= total,
            total == batch_slots_spec(count as int).len(),
            r@ == batch_slots_spec(count as int).take(k as int),
        decreases total - k,
    {
        let b: usize = k / 256;
        let j: usize = k % 256;
        let byte: u8 = if b >= count as usize {
            0
        } else if j == 0 {
            (b % 256) as u8
        } else if j == 1 {
            (b / 0x100 % 256) as u8
        } else if j == 2 {
            (b / 0x1_0000 % 256) as u8
        } else if j == 3 {
            (b / 0x100_0000 % 256) as u8
        } else {
            0
        };
        r.push(byte);
        assert(r@ =~= batch_slots_spec(count as int).take(k + 1));
        k = k + 1;
    }
    assert(r@ =~= batch_slots_spec(count as int));
    r
}

/// A list with zeros appended up to a length.
pub open spec fn padded_spec(v: Seq<u32>, least: int) -> Seq<u32> {
    Seq::new(
        if v.len() >= least {
            v.len()
        } else {
            least as nat
        },
        |k: int|
            if k < v.len() {
                v[k]
            } else {
                0
            },
    )
}

/// A list with zeros appended up to a length.
pub fn padded(v: &[u32], least: usize) -> (r: Vec<u32>)
    ensures
        r@ == padded_spec(v@, least as int),
{
    let total: usize = if v.len() >= least {
        v.len()
    } else {
        least
    };
    let mut r: Vec<u32> = Vec::new();
    let mut k: usize = 0;
    while k < total
        invariant
            k <= total,
            total == padded_spec(v@, least as int).len(),
            r@ == padded_spec(v@, least as int).take(k as int),
        decreases total - k,
    {
        if k < v.len() {
            r.push(v[k]);
        } else {
            r.push(0);
        }
        assert(r@ =~= padded_spec(v@, least as int).take(k + 1));
        k = k + 1;
    }
    assert(r@ =~= padded_spec(v@, least as int));
    r
}

/// The bytes of a word, least byte first.
pub open spec fn little_endian(w: u32) -> Seq<u8> {
    seq![
        (w % 0x100) as u8,
        (w / 0x100 % 0x100) as u8,
        (w / 0x1_0000 % 0x100) as u8,
        (w / 0x100_0000 % 0x100) as u8,
    ]
}

/// `bytes` are the words one after the other, with the bytes of each in the order of the machine:
/// the least byte first in all of them, or the least byte last in all of them.
pub open spec fn word_bytes(words: Seq<u32>, bytes: Seq<u8>) -> bool {
    &&& bytes.len() == 4 * words.len()
    &&& {
        ||| forall|k: int|
            0 <= k < words.len() ==> bytes.subrange(4 * k, 4 * k + 4) == little_endian(
                #[trigger] words[k],
            )
        ||| forall|k: int|
            0 <= k < words.len() ==> bytes.subrange(4 * k, 4 * k + 4) == little_endian(
                #[trigger] words[k],
            ).reverse()
    }
}

/// `bytemuck::cast_slice::<u32, u8>`: the memory of the words as bytes. It neither fails nor
/// panics, since bytes have no alignment and a word is a whole number of them. Which byte of a word
/// comes first depends on the machine.
#[verifier::external_body]
fn cast_words(words: &[u32]) -> (r: Vec<u8>)
    ensures
        word_bytes(words@, r@),
{
    bytemuck::cast_slice::<u32, u8>(words).to_vec()
}

/// The bytes of the offsets that a solver uploads: at least two of them.
pub fn offset_bytes(offsets: &[u32]) -> (r: Vec<u8>)
    ensures
        word_bytes(padded_spec(offsets@, 2), r@),
{
    let words = padded(offsets, 2);
    cast_words(words.as_slice())
}

/// The bytes of a table of indices.
pub fn index_bytes(indices: &[u32]) -> (r: Vec<u8>)
    ensures
        word_bytes(indices@, r@),
{
    cast_words(indices)
}

/// The bytes of the uniform that holds the number of a radix pass.
pub fn radix_pass_bytes(pass: u32) -> (r: Vec<u8>)
    ensures
        word_bytes(seq![pass, 0, 0, 0], r@),
{
    let words: [u32; 4] = [pass, 0, 0, 0];
    assert(words@ =~= seq![pass, 0, 0, 0]);
    cast_words(words.as_slice())
}

} // verus!
