//! Uniform layouts shared by the compute kernels and the host side.
//!
//! Every layout is generic in its scalar `S`. The verified code never computes with a scalar: it
//! only carries scalars from one place to another, so the proofs hold for every scalar type.

use vstd::prelude::*;

verus! {

/// Parameters of one substep, as the kernels read them.
#[derive(Clone, Copy)]
pub struct SimParams<S> {
    pub dt: S,
    pub inv_dt: S,
    pub inv_dt_sq: S,
    pub constraint_batch_count: u32,
    pub num_particles: u32,
    pub num_tris: u32,
    pub jacobi_omega: S,
    pub inner_iterations: u32,
    pub thickness: S,
    pub coll_scale: S,
    pub _pad_before_gravity: [S; 2],
    pub gravity: [S; 4],
    pub grab_target: [S; 4],
    pub grab_idx: i32,
    pub grab_active: u32,
    pub grab_stiffness: S,
    pub _pad_legacy_floor: S,
    pub linear_drag_per_sec: S,
    pub constraint_batch_idx: u32,
    pub _uniform_pad_vec2_u: [u32; 2],
    pub _uniform_pad_vec2_f: [S; 2],
    pub _uniform_encase_reserve: [u32; 2],
}

/// The uniform grid of the self-collision broad phase.
#[derive(Clone, Copy)]
pub struct CollGridUniform<S> {
    pub grid_origin_pad: [S; 4],
    pub inv_cell: S,
    pub num_cells: u32,
    pub num_particles: u32,
    pub gx: u32,
    pub gy: u32,
    pub gz: u32,
    pub radix_digits: u32,
    pub _align_pad: u32,
    pub _reserved: [u32; 4],
}

/// Index of the current radix pass, in `data[0]`.
#[derive(Clone, Copy)]
pub struct CollRadixPassUniform {
    pub data: [u32; 4],
}

/// One dynamic uniform slot of 256 bytes: the color batch to solve, in `head[0]`.
#[derive(Clone, Copy)]
pub struct GsDynBatchUniform {
    pub head: [u32; 4],
    pub _pad_bulk: [[u32; 4]; 15],
}

/// Fixed-point scale of the accumulated collision displacements.
pub const FIXSCALE: i32 = 10000;

impl<S> CollGridUniform<S> {
    /// The dimensions are positive, each fits in `i32`, and their product is the number of cells.
    pub open spec fn wf(&self) -> bool {
        &&& 0 < self.gx <= i32::MAX
        &&& 0 < self.gy <= i32::MAX
        &&& 0 < self.gz <= i32::MAX
        &&& self.num_cells == self.gx * self.gy * self.gz
    }
}

} // verus!
