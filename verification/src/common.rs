//! Decisions shared by the kernels: who is grabbed, and which grid cell is which.

use vstd::arithmetic::div_mod::{lemma_fundamental_div_mod, lemma_fundamental_div_mod_converse};
use vstd::prelude::*;

use crate::types::{CollGridUniform, SimParams};

verus! {

/// The value of a 32-bit pattern read as a signed number.
pub open spec fn as_i32(i: int) -> int {
    if i < 0x8000_0000 {
        i
    } else {
        i - 0x1_0000_0000
    }
}

/// A pattern read as a signed number is in the range of those, and is the same pattern.
pub proof fn law_as_i32(i: u32)
    ensures
        i32::MIN <= as_i32(i as int) <= i32::MAX,
        (as_i32(i as int) - i) % 0x1_0000_0000 == 0,
{
}

/// Reads the bits of `i` as a signed number.
pub fn reinterpret_i32(i: u32) -> (r: i32)
    ensures
        r == as_i32(i as int),
{
    assert(i < 0x8000_0000u32 ==> (i as i32) as i64 == i as i64) by (bit_vector);
    assert(i >= 0x8000_0000u32 ==> (i as i32) as i64 == i as i64 - 0x1_0000_0000) by (bit_vector);
    #[verifier::truncate]
    (i as i32)
}

/// Particle `i` is the one that the grab of `params` holds.
pub open spec fn grabbed<S>(params: SimParams<S>, i: u32) -> bool {
    params.grab_active != 0 && as_i32(i as int) == params.grab_idx
}

/// Grabbed particles are kinematic: the constraints are solved around the handle.
pub fn is_grabbed<S>(params: &SimParams<S>, i: u32) -> (r: bool)
    ensures
        r == grabbed(*params, i),
{
    params.grab_active != 0 && reinterpret_i32(i) == params.grab_idx
}

/// The inverse mass that constraints and collisions see: `zero` for the grabbed particle, the
/// particle's own otherwise.
pub fn effective_inv_mass<S: Copy>(params: &SimParams<S>, i: u32, inv_mass: S, zero: S) -> (r: S)
    ensures
        r == if grabbed(*params, i) {
            zero
        } else {
            inv_mass
        },
{
    if is_grabbed(params, i) {
        zero
    } else {
        inv_mass
    }
}

/// The flat index of the cell `(x, y, z)` of a grid that is `gx` cells wide and `gy` deep.
pub open spec fn flat_index(gx: int, gy: int, x: int, y: int, z: int) -> int {
    x + y * gx + z * gx * gy
}

/// `v`, moved into `0 .. n` if it lies outside.
pub open spec fn clamp_to(v: int, n: int) -> int {
    if v < 0 {
        0
    } else if v > n - 1 {
        n - 1
    } else {
        v
    }
}

/// The flat index of the cell that holds the grid coordinates `q`, clamped into the grid.
pub open spec fn cell_of<S>(grid: CollGridUniform<S>, q: [i32; 3]) -> int {
    flat_index(
        grid.gx as int,
        grid.gy as int,
        clamp_to(q@[0] as int, grid.gx as int),
        clamp_to(q@[1] as int, grid.gy as int),
        clamp_to(q@[2] as int, grid.gz as int),
    )
}

pub open spec fn cell_x(gx: int, gy: int, cid: int) -> int {
    (cid % (gx * gy)) % gx
}

pub open spec fn cell_y(gx: int, gy: int, cid: int) -> int {
    (cid % (gx * gy)) / gx
}

pub open spec fn cell_z(gx: int, gy: int, cid: int) -> int {
    cid / (gx * gy)
}

/// Coordinates `(nx, ny, nz)` name a cell of the grid.
pub open spec fn in_grid<S>(grid: CollGridUniform<S>, nx: int, ny: int, nz: int) -> bool {
    &&& 0 <= nx < as_i32(grid.gx as int)
    &&& 0 <= ny < as_i32(grid.gy as int)
    &&& 0 <= nz < as_i32(grid.gz as int)
}

/// The flat index of the cell at offset `(dx, dy, dz)` from the cell `cid`, or the number of cells
/// where that leaves the grid.
pub open spec fn neighbor_of<S>(
    grid: CollGridUniform<S>,
    cid: int,
    dx: int,
    dy: int,
    dz: int,
) -> int {
    let gx = grid.gx as int;
    let gy = grid.gy as int;
    let nx = as_i32(cell_x(gx, gy, cid)) + dx;
    let ny = as_i32(cell_y(gx, gy, cid)) + dy;
    let nz = as_i32(cell_z(gx, gy, cid)) + dz;
    if in_grid(grid, nx, ny, nz) {
        flat_index(gx, gy, nx, ny, nz)
    } else {
        grid.num_cells as int
    }
}

fn clamp_axis(v: i32, n: u32) -> (r: u32)
    requires
        0 < n <= i32::MAX,
    ensures
        r == clamp_to(v as int, n as int),
{
    let top: i32 = n as i32 - 1;
    if v < 0 {
        0
    } else if v > top {
        top as u32
    } else {
        v as u32
    }
}

/// The cell with the coordinates `q`, moved into the grid where they lie outside.
pub fn flat_packed<S>(grid: &CollGridUniform<S>, q: [i32; 3]) -> (r: u32)
    requires
        0 < grid.gx <= i32::MAX,
        0 < grid.gy <= i32::MAX,
        0 < grid.gz <= i32::MAX,
        cell_of(*grid, q) <= u32::MAX,
    ensures
        r == cell_of(*grid, q),
{
    let ix: u32 = clamp_axis(q[0], grid.gx);
    let iy: u32 = clamp_axis(q[1], grid.gy);
    let iz: u32 = clamp_axis(q[2], grid.gz);
    proof {
        let gx = grid.gx as int;
        let gy = grid.gy as int;
        assert(0 <= iy * gx) by (nonlinear_arith)
            requires
                iy >= 0,
                gx > 0,
        ;
        assert(0 <= iz * gx) by (nonlinear_arith)
            requires
                iz >= 0,
                gx > 0,
        ;
        assert(0 <= iz * gx <= iz * gx * gy) by (nonlinear_arith)
            requires
                iz >= 0,
                gx > 0,
                gy >= 1,
        ;
    }
    ix + iy * grid.gx + iz * grid.gx * grid.gy
}

/// The cell at an offset from the cell `cid`, or `grid.num_cells` where there is none.
pub fn neighbor_flat<S>(grid: &CollGridUniform<S>, cid: u32, dx: i32, dy: i32, dz: i32) -> (r: u32)
    requires
        0 < grid.gx * grid.gy <= u32::MAX,
        i32::MIN <= as_i32(cell_x(grid.gx as int, grid.gy as int, cid as int)) + dx <= i32::MAX,
        i32::MIN <= as_i32(cell_y(grid.gx as int, grid.gy as int, cid as int)) + dy <= i32::MAX,
        i32::MIN <= as_i32(cell_z(grid.gx as int, grid.gy as int, cid as int)) + dz <= i32::MAX,
        neighbor_of(*grid, cid as int, dx as int, dy as int, dz as int) <= u32::MAX,
    ensures
        r == neighbor_of(*grid, cid as int, dx as int, dy as int, dz as int),
{
    let gx: u32 = grid.gx;
    let gy: u32 = grid.gy;
    let gz: u32 = grid.gz;
    let plane: u32 = gx * gy;
    let iz: u32 = cid / plane;
    proof {
        lemma_fundamental_div_mod(cid as int, plane as int);
        assert(iz * plane == plane * iz) by (nonlinear_arith);
        assert(iz * gx * gy == iz * plane) by (nonlinear_arith)
            requires
                plane == gx * gy,
        ;
        assert(gx >= 1 && gy >= 1) by (nonlinear_arith)
            requires
                gx * gy > 0,
                gx >= 0,
                gy >= 0,
        ;
        assert(iz * gx <= iz * gx * gy) by (nonlinear_arith)
            requires
                iz >= 0,
                gx >= 1,
                gy >= 1,
        ;
    }
    let t: u32 = cid - iz * gx * gy;
    let iy: u32 = t / gx;
    proof {
        assert(t == cid % plane);
        lemma_fundamental_div_mod(t as int, gx as int);
        assert(iy * gx == gx * iy) by (nonlinear_arith);
    }
    let ix: u32 = t - iy * gx;
    let nx: i32 = reinterpret_i32(ix) + dx;
    let ny: i32 = reinterpret_i32(iy) + dy;
    let nz: i32 = reinterpret_i32(iz) + dz;
    if nx < 0 || ny < 0 || nz < 0 || nx >= reinterpret_i32(gx) || ny >= reinterpret_i32(gy) || nz
        >= reinterpret_i32(gz) {
        return grid.num_cells;
    }
    proof {
        assert(0 <= ny * gx) by (nonlinear_arith)
            requires
                ny >= 0,
                gx >= 0,
        ;
        assert(0 <= nz * gx <= nz * gx * gy) by (nonlinear_arith)
            requires
                nz >= 0,
                gx >= 1,
                gy >= 1,
        ;
    }
    nx as u32 + ny as u32 * gx + nz as u32 * gx * gy
}

/// The flat index of a cell determines its coordinates.
pub proof fn law_flat_index_decodes(gx: int, gy: int, x: int, y: int, z: int)
    requires
        0 <= x < gx,
        0 <= y < gy,
        0 <= z,
    ensures
        cell_x(gx, gy, flat_index(gx, gy, x, y, z)) == x,
        cell_y(gx, gy, flat_index(gx, gy, x, y, z)) == y,
        cell_z(gx, gy, flat_index(gx, gy, x, y, z)) == z,
        0 <= flat_index(gx, gy, x, y, z) < gx * gy * (z + 1),
{
    let t = x + y * gx;
    let f = flat_index(gx, gy, x, y, z);
    assert(0 <= t < gx * gy) by (nonlinear_arith)
        requires
            t == x + y * gx,
            0 <= x < gx,
            0 <= y < gy,
    ;
    assert(f == z * (gx * gy) + t) by (nonlinear_arith)
        requires
            f == x + y * gx + z * gx * gy,
            t == x + y * gx,
    ;
    lemma_fundamental_div_mod_converse(f, gx * gy, z, t);
    lemma_fundamental_div_mod_converse(t, gx, y, x);
    assert(0 <= z * (gx * gy) && z * (gx * gy) + gx * gy == gx * gy * (z + 1)) by (nonlinear_arith)
        requires
            0 <= z,
            0 < gx * gy,
    ;
}

/// Every cell of a well-formed grid has coordinates inside it, and is their flat index.
pub proof fn law_cell_coords_in_grid<S>(grid: CollGridUniform<S>, cid: int)
    requires
        grid.wf(),
        0 <= cid < grid.num_cells,
    ensures
        ({
            let gx = grid.gx as int;
            let gy = grid.gy as int;
            &&& 0 <= cell_x(gx, gy, cid) < gx
            &&& 0 <= cell_y(gx, gy, cid) < gy
            &&& 0 <= cell_z(gx, gy, cid) < grid.gz
            &&& cid == flat_index(
                gx,
                gy,
                cell_x(gx, gy, cid),
                cell_y(gx, gy, cid),
                cell_z(gx, gy, cid),
            )
        }),
{
    let gx = grid.gx as int;
    let gy = grid.gy as int;
    let gz = grid.gz as int;
    let plane = gx * gy;
    assert(plane > 0) by (nonlinear_arith)
        requires
            plane == gx * gy,
            gx > 0,
            gy > 0,
    ;
    lemma_fundamental_div_mod(cid, plane);
    let t = cid % plane;
    let z = cid / plane;
    lemma_fundamental_div_mod(t, gx);
    let y = t / gx;
    assert(0 <= z < gz) by (nonlinear_arith)
        requires
            cid == plane * z + t,
            0 <= t < plane,
            0 <= cid < plane * gz,
    ;
    assert(0 <= y < gy) by (nonlinear_arith)
        requires
            t == gx * y + t % gx,
            0 <= t % gx < gx,
            0 <= t < gx * gy,
    ;
    assert(z * gx * gy == plane * z) by (nonlinear_arith)
        requires
            plane == gx * gy,
    ;
    assert(y * gx == gx * y) by (nonlinear_arith);
}

/// The cell of a particle is a cell of the grid.
pub proof fn law_cell_of_in_grid<S>(grid: CollGridUniform<S>, q: [i32; 3])
    requires
        grid.wf(),
    ensures
        0 <= cell_of(grid, q) < grid.num_cells,
{
    let gx = grid.gx as int;
    let gy = grid.gy as int;
    let gz = grid.gz as int;
    let z = clamp_to(q@[2] as int, gz);
    law_flat_index_decodes(
        gx,
        gy,
        clamp_to(q@[0] as int, gx),
        clamp_to(q@[1] as int, gy),
        z,
    );
    assert(gx * gy * (z + 1) <= gx * gy * gz) by (nonlinear_arith)
        requires
            z + 1 <= gz,
            gx > 0,
            gy > 0,
    ;
}

/// The cell of grid coordinates has those coordinates, or the nearest ones in the grid: along each
/// axis none below zero, and none beyond the last cell.
pub proof fn law_cell_of_coords<S>(grid: CollGridUniform<S>, q: [i32; 3])
    requires
        grid.wf(),
    ensures
        ({
            let (gx, gy, gz) = (grid.gx as int, grid.gy as int, grid.gz as int);
            let x = cell_x(gx, gy, cell_of(grid, q));
            let y = cell_y(gx, gy, cell_of(grid, q));
            let z = cell_z(gx, gy, cell_of(grid, q));
            &&& 0 <= x < gx && 0 <= y < gy && 0 <= z < gz
            &&& 0 <= q@[0] < gx ==> x == q@[0]
            &&& 0 <= q@[1] < gy ==> y == q@[1]
            &&& 0 <= q@[2] < gz ==> z == q@[2]
            &&& q@[0] < 0 ==> x == 0
            &&& q@[1] < 0 ==> y == 0
            &&& q@[2] < 0 ==> z == 0
            &&& gx <= q@[0] ==> x == gx - 1
            &&& gy <= q@[1] ==> y == gy - 1
            &&& gz <= q@[2] ==> z == gz - 1
        }),
{
    let (gx, gy, gz) = (grid.gx as int, grid.gy as int, grid.gz as int);
    law_flat_index_decodes(
        gx,
        gy,
        clamp_to(q@[0] as int, gx),
        clamp_to(q@[1] as int, gy),
        clamp_to(q@[2] as int, gz),
    );
}

/// In a well-formed grid the neighbor at an offset is the number of cells exactly where the offset
/// leaves the grid, and otherwise the cell whose coordinates are shifted by the offset.
pub proof fn law_neighbor_shifts_coords<S>(
    grid: CollGridUniform<S>,
    cid: int,
    dx: int,
    dy: int,
    dz: int,
)
    requires
        grid.wf(),
        0 <= cid < grid.num_cells,
    ensures
        ({
            let gx = grid.gx as int;
            let gy = grid.gy as int;
            let n = neighbor_of(grid, cid, dx, dy, dz);
            let inside = 0 <= cell_x(gx, gy, cid) + dx < gx && 0 <= cell_y(gx, gy, cid) + dy < gy
                && 0 <= cell_z(gx, gy, cid) + dz < grid.gz;
            &&& inside ==> 0 <= n < grid.num_cells && cell_x(gx, gy, n) == cell_x(gx, gy, cid) + dx
                && cell_y(gx, gy, n) == cell_y(gx, gy, cid) + dy && cell_z(gx, gy, n) == cell_z(
                gx,
                gy,
                cid,
            ) + dz
            &&& !inside ==> n == grid.num_cells
        }),
{
    let gx = grid.gx as int;
    let gy = grid.gy as int;
    let gz = grid.gz as int;
    law_cell_coords_in_grid(grid, cid);
    let nx = cell_x(gx, gy, cid) + dx;
    let ny = cell_y(gx, gy, cid) + dy;
    let nz = cell_z(gx, gy, cid) + dz;
    if 0 <= nx < gx && 0 <= ny < gy && 0 <= nz < gz {
        law_flat_index_decodes(gx, gy, nx, ny, nz);
        assert(gx * gy * (nz + 1) <= gx * gy * gz) by (nonlinear_arith)
            requires
                nz + 1 <= gz,
                gx > 0,
                gy > 0,
        ;
    }
}

/// Stepping to a neighbor and back by the opposite offset returns to the cell.
pub proof fn law_neighbor_undone<S>(grid: CollGridUniform<S>, cid: int, dx: int, dy: int, dz: int)
    requires
        grid.wf(),
        0 <= cid < grid.num_cells,
        neighbor_of(grid, cid, dx, dy, dz) != grid.num_cells,
    ensures
        neighbor_of(grid, neighbor_of(grid, cid, dx, dy, dz), -dx, -dy, -dz) == cid,
{
    let n = neighbor_of(grid, cid, dx, dy, dz);
    law_neighbor_shifts_coords(grid, cid, dx, dy, dz);
    law_cell_coords_in_grid(grid, cid);
    law_cell_coords_in_grid(grid, n);
    law_neighbor_shifts_coords(grid, n, -dx, -dy, -dz);
    law_cell_coords_in_grid(grid, neighbor_of(grid, n, -dx, -dy, -dz));
}

} // verus!
