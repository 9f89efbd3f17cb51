# bevy_softbody

A cloth simulation with a verified core: XPBD distance constraints solved on the GPU in colored
Gauss-Seidel batches or by Jacobi iterations, self-collision over a uniform grid, and a solver on
the CPU that takes the constraints in the same order and separates particles by the same formula.

The library under `src/` is verified with Verus. It holds everything that is decided about the
cloth: how a mesh gets its constraints and their batches, what every compute kernel reads and
writes, which commands a frame records, and the formulas of the solvers. Scalars and vectors are
opaque to it. The operations on them are passed in as closures, and the contracts say what is
computed in terms of those operations.

* `src/mesh_prep/`: meshes out of OBJ texts and procedural grids; edges, hinges, braces, batches,
  neighbor lists, inverse masses.
* `src/gs.rs`, `src/common.rs`, `src/broad_phase.rs`: the kernels, and what they compute together.
* `src/frame.rs`, `src/device.rs`, `src/cloth_compute.rs`, `src/cloth_jacobi.rs`: the host side.
* `src/substep.rs`, `src/xpbd_cpu.rs`, `src/arith.rs`: the CPU solver and the formulas.
* `app/`: the Bevy plugins, and the `f32` operations.

Functions named `law_..` state what holds of several functions together.
