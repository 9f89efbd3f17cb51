//! Verified core of an XPBD cloth simulation.
//!
//! * [`mesh_prep`] builds cloth meshes: constraints, their batches, and who is whose neighbor.
//! * [`gs`] holds the compute kernels, with [`common`], [`types`] and [`atom`] beside them, and
//!   [`broad_phase`] shows that the kernels of the collision search work together.
//! * [`cloth_compute`] and [`cloth_jacobi`] drive the two solvers from the host, over the frames of
//!   [`frame`] and the buffers of [`device`].
//! * [`xpbd_cpu`] runs the same simulation without a device, over the substeps of [`substep`].
//! * [`arith`] holds the formulas. [`exact`] and the modules named after it show what they come to over
//!   real numbers: for single particles, constraints and pairs, for the kernels, and for a cloth that
//!   is simulated without a device.
//! * [`frame_order`] shows that the kernels of a frame run when what they read is there.
//!
//! Nothing here computes with floating point: scalars and vectors are opaque, and what is computed
//! with them is passed in.

pub mod arith;
pub mod atom;
pub mod broad_phase;
pub mod cloth_compute;
pub mod cloth_jacobi;
pub mod common;
pub mod device;
pub mod device_laws;
pub mod exact;
pub mod exact_contacts;
pub mod exact_cpu;
pub mod exact_edges;
pub mod exact_kernels;
pub mod exact_pairs;
pub mod frame;
pub mod frame_laws;
pub mod frame_order;
pub mod gs;
pub mod mesh_prep;
pub mod reals;
pub mod substep;
pub mod substep_laws;
pub mod types;
pub mod xpbd_cpu;
