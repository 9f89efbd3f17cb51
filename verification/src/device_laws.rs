//! What the bytes and uploads of the device mean.

use vstd::prelude::*;

use crate::cloth_compute::slot_offset;
use crate::device::{
    batch_slots_spec, gs_slots_spec, initial_uploads_spec, jacobi_slots_spec, little_endian,
    padded_spec, solver_buffers_spec, solver_kernels_spec, Access, Bound, BufferCounts, ClothBuffer,
    Slot, Solver, Source, Upload,
};
use crate::frame::Kernel;

verus! {

/// The number that four bytes are, least byte first.
pub open spec fn read_word(a: u8, b: u8, c: u8, d: u8) -> int {
    a + 0x100 * b + 0x1_0000 * c + 0x100_0000 * d
}

/// The bytes of a word read as the word.
pub proof fn law_word_reads_back(w: u32)
    ensures
        ({
            let s = little_endian(w);
            s.len() == 4 && read_word(s[0], s[1], s[2], s[3]) == w
        }),
{
}

/// The slot of each batch starts with the number of the batch.
pub proof fn law_batch_slots_read_back(count: int, b: int)
    requires
        0 <= b < count <= u32::MAX,
    ensures
        ({
            let s = batch_slots_spec(count);
            let at = 256 * b;
            &&& s.len() == 256 * count
            &&& read_word(s[at], s[at + 1], s[at + 2], s[at + 3]) == b
        }),
{
    let s = batch_slots_spec(count);
    let at = 256 * b;
    assert(at / 256 == b && at % 256 == 0);
    assert((at + 1) / 256 == b && (at + 1) % 256 == 1);
    assert((at + 2) / 256 == b && (at + 2) % 256 == 2);
    assert((at + 3) / 256 == b && (at + 3) % 256 == 3);
    assert(s[at] == (b % 256) as u8);
    assert(s[at + 1] == (b / 0x100 % 256) as u8);
    assert(s[at + 2] == (b / 0x1_0000 % 256) as u8);
    assert(s[at + 3] == (b / 0x100_0000 % 256) as u8);
}

/// The slot that is bound for a batch holds the number of the batch.
pub proof fn law_bound_slot_reads_back(count: int, b: int)
    requires
        0 <= b < count,
        256 * b <= u32::MAX,
        count <= u32::MAX,
    ensures
        ({
            let s = batch_slots_spec(count);
            let at = slot_offset(b) as int;
            &&& at + 3 < s.len()
            &&& read_word(s[at], s[at + 1], s[at + 2], s[at + 3]) == b
        }),
{
    law_batch_slots_read_back(count, b);
}

/// A solver has every kernel but those with which the other one solves constraints.
pub proof fn law_solver_kernels(solver: Solver, k: Kernel)
    ensures
        solver_kernels_spec(solver).contains(k) <==> match solver {
            Solver::GaussSeidel => k != Kernel::JacobiEdges && k != Kernel::JacobiGather,
            Solver::Jacobi => k != Kernel::GsEdges,
        },
{
    let all = solver_kernels_spec(solver);
    let n = all.len() as int;
    assert(all[0] == Kernel::PredictCopySimToJac);
    assert(all[1] == Kernel::CopyJacToSim);
    assert(all[2] == Kernel::ClearConstraintLambda);
    assert(solver == Solver::GaussSeidel ==> all[3] == Kernel::GsEdges);
    assert(solver == Solver::Jacobi ==> all[3] == Kernel::JacobiEdges && all[4]
        == Kernel::JacobiGather);
    assert(all[n - 14] == Kernel::PostVelocity);
    assert(all[n - 13] == Kernel::ClearAtomics);
    assert(all[n - 12] == Kernel::CollCellBoundsClear);
    assert(all[n - 11] == Kernel::CollPermIdentityPing);
    assert(all[n - 10] == Kernel::CollHistogramClear);
    assert(all[n - 9] == Kernel::CollRadixDigitCount);
    assert(all[n - 8] == Kernel::CollRadixExclusiveBasesHeads);
    assert(all[n - 7] == Kernel::CollRadixDigitScatter);
    assert(all[n - 6] == Kernel::CollSortedBuildCellRanges);
    assert(all[n - 5] == Kernel::CollideGridCells);
    assert(all[n - 4] == Kernel::CollideApply);
    assert(all[n - 3] == Kernel::ClearNormAtomics);
    assert(all[n - 2] == Kernel::AccumulateNormals);
    assert(all[n - 1] == Kernel::FinalizeNormals);
}

/// A solver creates every buffer but those that only the other one solves constraints with.
pub proof fn law_solver_buffers(solver: Solver, b: ClothBuffer)
    ensures
        solver_buffers_spec(solver).contains(b) <==> match solver {
            Solver::GaussSeidel => b != ClothBuffer::JacA && b != ClothBuffer::JacB && b
                != ClothBuffer::NeighborOffsets && b != ClothBuffer::NeighborPacked,
            Solver::Jacobi => b != ClothBuffer::JacState && b != ClothBuffer::ConstraintBatchOffsets
                && b != ClothBuffer::GsBatchDyn,
        },
{
    let all = solver_buffers_spec(solver);
    match solver {
        Solver::GaussSeidel => {
            assert(all[0] == ClothBuffer::ParamsUniform);
            assert(all[1] == ClothBuffer::SimPos);
            assert(all[2] == ClothBuffer::JacState);
            assert(all[3] == ClothBuffer::Prev);
            assert(all[4] == ClothBuffer::Vel);
            assert(all[5] == ClothBuffer::Rest);
            assert(all[6] == ClothBuffer::InvMass);
            assert(all[7] == ClothBuffer::ConstraintBatchOffsets);
            assert(all[8] == ClothBuffer::ConstraintI);
            assert(all[9] == ClothBuffer::ConstraintJ);
            assert(all[10] == ClothBuffer::ConstraintRest);
            assert(all[11] == ClothBuffer::ConstraintComp);
            assert(all[12] == ClothBuffer::ConstraintLambda);
            assert(all[13] == ClothBuffer::ConstraintDeltaLambda);
            assert(all[14] == ClothBuffer::Tri);
            assert(all[15] == ClothBuffer::AtomicColl);
            assert(all[16] == ClothBuffer::AtomicNorm);
            assert(all[17] == ClothBuffer::GsBatchDyn);
            assert(all[18] == ClothBuffer::CollGridUniform);
            assert(all[19] == ClothBuffer::CollRadixPassUniform);
            assert(all[20] == ClothBuffer::CollRadixHist);
            assert(all[21] == ClothBuffer::CollRadixHead);
            assert(all[22] == ClothBuffer::CollPermPing);
            assert(all[23] == ClothBuffer::CollPermPong);
            assert(all[24] == ClothBuffer::CollCellStart);
            assert(all[25] == ClothBuffer::CollCellEndExclusive);
        },
        Solver::Jacobi => {
            assert(all[0] == ClothBuffer::ParamsUniform);
            assert(all[1] == ClothBuffer::SimPos);
            assert(all[2] == ClothBuffer::JacA);
            assert(all[3] == ClothBuffer::JacB);
            assert(all[4] == ClothBuffer::Prev);
            assert(all[5] == ClothBuffer::Vel);
            assert(all[6] == ClothBuffer::Rest);
            assert(all[7] == ClothBuffer::InvMass);
            assert(all[8] == ClothBuffer::NeighborOffsets);
            assert(all[9] == ClothBuffer::NeighborPacked);
            assert(all[10] == ClothBuffer::ConstraintI);
            assert(all[11] == ClothBuffer::ConstraintJ);
            assert(all[12] == ClothBuffer::ConstraintRest);
            assert(all[13] == ClothBuffer::ConstraintComp);
            assert(all[14] == ClothBuffer::ConstraintLambda);
            assert(all[15] == ClothBuffer::ConstraintDeltaLambda);
            assert(all[16] == ClothBuffer::Tri);
            assert(all[17] == ClothBuffer::AtomicColl);
            assert(all[18] == ClothBuffer::AtomicNorm);
            assert(all[19] == ClothBuffer::CollGridUniform);
            assert(all[20] == ClothBuffer::CollRadixPassUniform);
            assert(all[21] == ClothBuffer::CollRadixHist);
            assert(all[22] == ClothBuffer::CollRadixHead);
            assert(all[23] == ClothBuffer::CollPermPing);
            assert(all[24] == ClothBuffer::CollPermPong);
            assert(all[25] == ClothBuffer::CollCellStart);
            assert(all[26] == ClothBuffer::CollCellEndExclusive);
        },
    }
}

/// A slot is used as what is bound to it allows: uniforms as such, the tables of the mesh for reading,
/// and what changes in a frame for writing too. The buffers of the Jacobi solver take turns.
pub open spec fn right_access(s: Slot) -> bool {
    match s.bound {
        Bound::Buffer(b) => match b {
            ClothBuffer::ParamsUniform
            | ClothBuffer::CollGridUniform
            | ClothBuffer::CollRadixPassUniform => s.access == Access::Uniform,
            ClothBuffer::GsBatchDyn => s.access == Access::DynamicUniform,
            ClothBuffer::Rest
            | ClothBuffer::InvMass
            | ClothBuffer::ConstraintBatchOffsets
            | ClothBuffer::NeighborOffsets
            | ClothBuffer::NeighborPacked
            | ClothBuffer::ConstraintI
            | ClothBuffer::ConstraintJ
            | ClothBuffer::ConstraintRest
            | ClothBuffer::ConstraintComp
            | ClothBuffer::Tri => s.access == Access::ReadOnly,
            ClothBuffer::JacA | ClothBuffer::JacB => s.access == Access::ReadOnly || s.access
                == Access::ReadWrite,
            _ => s.access == Access::ReadWrite,
        },
        _ => s.access == Access::ReadWrite,
    }
}

/// Every slot of the Gauss-Seidel kernels has the right access, and what is bound to it exists.
pub proof fn law_gs_slots(k: int)
    requires
        0 <= k < gs_slots_spec().len(),
    ensures
        right_access(gs_slots_spec()[k]),
        gs_slots_spec()[k].bound matches Bound::Buffer(b) ==> solver_buffers_spec(
            Solver::GaussSeidel,
        ).contains(b),
{
    if let Bound::Buffer(b) = gs_slots_spec()[k].bound {
        law_solver_buffers(Solver::GaussSeidel, b);
    }
}

/// Every slot of the Jacobi kernels has the right access, and what is bound to it exists. Positions are
/// read from the one buffer and written to the other.
pub proof fn law_jacobi_slots(jac_in: ClothBuffer, jac_out: ClothBuffer, k: int)
    requires
        jac_in is JacA || jac_in is JacB,
        jac_out is JacA || jac_out is JacB,
        jac_in != jac_out,
        0 <= k < jacobi_slots_spec(jac_in, jac_out).len(),
    ensures
        ({
            let s = jacobi_slots_spec(jac_in, jac_out)[k];
            &&& right_access(s)
            &&& s.bound matches Bound::Buffer(b) ==> solver_buffers_spec(Solver::Jacobi).contains(b)
            &&& s.bound == Bound::Buffer(jac_in) ==> s.access == Access::ReadOnly
            &&& s.bound == Bound::Buffer(jac_out) ==> s.access == Access::ReadWrite
        }),
{
    if let Bound::Buffer(b) = jacobi_slots_spec(jac_in, jac_out)[k].bound {
        law_solver_buffers(Solver::Jacobi, b);
    }
}

/// A padded list begins with the list, has zeros after it, and is not longer than needed.
pub proof fn law_padded(v: Seq<u32>, least: int, k: int)
    requires
        0 <= least,
        0 <= k < padded_spec(v, least).len(),
    ensures
        least <= padded_spec(v, least).len(),
        v.len() <= padded_spec(v, least).len(),
        padded_spec(v, least).len() == v.len() || padded_spec(v, least).len() == least,
        k < v.len() ==> padded_spec(v, least)[k] == v[k],
        v.len() <= k ==> padded_spec(v, least)[k] == 0,
{
}

/// The buffers hold four words of each particle for positions and velocities, three for accumulated
/// displacements and normals, one for the rest, one word of each constraint and cell, and a slot of
/// 256 bytes for each batch. None of these is empty where there are particles.
pub proof fn law_buffer_sizes(counts: BufferCounts, b: ClothBuffer)
    ensures
        ({
            let bytes = counts.bytes_spec(b);
            match b {
                ClothBuffer::SimPos
                | ClothBuffer::JacState
                | ClothBuffer::JacA
                | ClothBuffer::JacB
                | ClothBuffer::Prev
                | ClothBuffer::Vel
                | ClothBuffer::Rest => bytes == 4 * (4 * counts.particles),
                ClothBuffer::AtomicColl | ClothBuffer::AtomicNorm => bytes == 3 * (4
                    * counts.particles),
                ClothBuffer::InvMass | ClothBuffer::CollPermPing | ClothBuffer::CollPermPong => bytes
                    == 4 * counts.particles,
                ClothBuffer::ConstraintI
                | ClothBuffer::ConstraintJ
                | ClothBuffer::ConstraintRest
                | ClothBuffer::ConstraintComp
                | ClothBuffer::ConstraintLambda
                | ClothBuffer::ConstraintDeltaLambda => bytes == at_least(
                    4 * counts.constraints,
                    4,
                ),
                ClothBuffer::CollCellStart | ClothBuffer::CollCellEndExclusive => bytes == at_least(
                    4 * counts.cells,
                    4,
                ),
                ClothBuffer::ConstraintBatchOffsets => bytes == at_least(
                    4 * counts.batch_offsets,
                    8,
                ),
                ClothBuffer::NeighborOffsets => bytes == at_least(4 * counts.neighbor_offsets, 8),
                ClothBuffer::NeighborPacked => bytes == at_least(16 * counts.neighbor_entries, 16),
                ClothBuffer::Tri => bytes == 4 * counts.tri_indices,
                ClothBuffer::GsBatchDyn => bytes == at_least(256 * counts.batches, 256),
                ClothBuffer::CollRadixHist | ClothBuffer::CollRadixHead => bytes == 4 * 256,
                ClothBuffer::CollRadixPassUniform => bytes == 4 * 4,
                _ => bytes > 0,
            }
        }),
{
}

/// The larger of a size and the least one.
pub open spec fn at_least(size: int, least: int) -> int {
    if size < least {
        least
    } else {
        size
    }
}

/// A buffer of positions starts with the initial ones, whatever else is there is of the mesh, and
/// nothing moves or pulls yet.
pub open spec fn starts_right(u: Upload) -> bool {
    match u.to {
        ClothBuffer::SimPos
        | ClothBuffer::JacState
        | ClothBuffer::JacA
        | ClothBuffer::JacB
        | ClothBuffer::Prev => u.from == Source::InitialPositions,
        ClothBuffer::Vel
        | ClothBuffer::ConstraintLambda
        | ClothBuffer::ConstraintDeltaLambda
        | ClothBuffer::CollRadixPassUniform => u.from == Source::Zeros,
        ClothBuffer::Rest => u.from == Source::RestPositions,
        ClothBuffer::InvMass => u.from == Source::InvMass,
        ClothBuffer::Tri => u.from == Source::TriIndices,
        ClothBuffer::ConstraintI => u.from == Source::ConstraintI,
        ClothBuffer::ConstraintJ => u.from == Source::ConstraintJ,
        ClothBuffer::ConstraintRest => u.from == Source::ConstraintRest,
        ClothBuffer::ConstraintComp => u.from == Source::ConstraintComp,
        ClothBuffer::ConstraintBatchOffsets => u.from == Source::BatchOffsets,
        ClothBuffer::NeighborOffsets => u.from == Source::NeighborOffsets,
        ClothBuffer::NeighborPacked => u.from == Source::NeighborPacked,
        ClothBuffer::GsBatchDyn => u.from == Source::BatchSlots,
        ClothBuffer::ParamsUniform => u.from == Source::Params,
        ClothBuffer::CollGridUniform => u.from == Source::CollGrid,
        _ => false,
    }
}

/// The buffer is written when the simulation starts.
pub open spec fn is_written(solver: Solver, counts: BufferCounts, b: ClothBuffer) -> bool {
    exists|k: int|
        0 <= k < initial_uploads_spec(solver, counts).len() && (#[trigger] initial_uploads_spec(
            solver,
            counts,
        )[k]).to == b
}

/// The simulation starts with every upload where it belongs, and both solvers start with what they
/// read first.
pub proof fn law_initial_uploads(solver: Solver, counts: BufferCounts)
    ensures
        forall|k: int|
            0 <= k < initial_uploads_spec(solver, counts).len() ==> starts_right(
                #[trigger] initial_uploads_spec(solver, counts)[k],
            ),
        is_written(solver, counts, ClothBuffer::SimPos),
        is_written(solver, counts, ClothBuffer::Prev),
        is_written(solver, counts, ClothBuffer::Vel),
        is_written(solver, counts, ClothBuffer::Rest),
        is_written(solver, counts, ClothBuffer::InvMass),
        is_written(solver, counts, ClothBuffer::Tri),
        counts.constraints > 0 ==> is_written(solver, counts, ClothBuffer::ConstraintI)
            && is_written(solver, counts, ClothBuffer::ConstraintJ) && is_written(
            solver,
            counts,
            ClothBuffer::ConstraintRest,
        ) && is_written(solver, counts, ClothBuffer::ConstraintComp),
        solver == Solver::GaussSeidel ==> is_written(solver, counts, ClothBuffer::JacState)
            && is_written(solver, counts, ClothBuffer::ConstraintBatchOffsets),
        solver == Solver::Jacobi ==> is_written(solver, counts, ClothBuffer::JacA) && is_written(
            solver,
            counts,
            ClothBuffer::JacB,
        ) && is_written(solver, counts, ClothBuffer::NeighborOffsets),
{
    let all = initial_uploads_spec(solver, counts);
    let n = all.len() as int;
    assert(all[n - 1].to == ClothBuffer::Vel);
    assert(all[n - 2].to == ClothBuffer::Prev);
    match solver {
        Solver::GaussSeidel => {
            assert(all[n - 3].to == ClothBuffer::JacState);
            assert(all[n - 4].to == ClothBuffer::SimPos);
            assert(all[n - 5].to == ClothBuffer::Rest);
            assert(all[n - 6].to == ClothBuffer::InvMass);
            assert(all[n - 7].to == ClothBuffer::Tri);
            assert(all[n - 8].to == ClothBuffer::ConstraintBatchOffsets);
            if counts.constraints > 0 {
                assert(all[4].to == ClothBuffer::ConstraintI);
                assert(all[5].to == ClothBuffer::ConstraintJ);
                assert(all[6].to == ClothBuffer::ConstraintRest);
                assert(all[7].to == ClothBuffer::ConstraintComp);
            }
        },
        Solver::Jacobi => {
            assert(all[n - 3].to == ClothBuffer::JacB);
            assert(all[n - 4].to == ClothBuffer::JacA);
            assert(all[n - 5].to == ClothBuffer::SimPos);
            assert(all[n - 6].to == ClothBuffer::Rest);
            assert(all[n - 7].to == ClothBuffer::InvMass);
            assert(all[n - 8].to == ClothBuffer::Tri);
            let at = if counts.constraints > 0 {
                9int
            } else {
                5int
            };
            assert(all[at].to == ClothBuffer::NeighborOffsets);
            if counts.constraints > 0 {
                assert(all[3].to == ClothBuffer::ConstraintI);
                assert(all[4].to == ClothBuffer::ConstraintJ);
                assert(all[5].to == ClothBuffer::ConstraintRest);
                assert(all[6].to == ClothBuffer::ConstraintComp);
            }
        },
    }
}

} // verus!
