use bevy_softbody::arith::{Arith, Constants};
use bevy_softbody::cloth_compute::{INNER_ITERS, SUBSTEPS};
use bevy_softbody::common::{effective_inv_mass, neighbor_flat};
use bevy_softbody::mesh_prep::{
    grid_cloth_hanging, parse_welded_obj, ClothMeshData, Compliances, MeshOps,
};
use bevy_softbody::gs::gs_edges;
use bevy_softbody::types::{CollGridUniform, GsDynBatchUniform, SimParams};
use bevy_softbody::xpbd_cpu::{
    self_collision_resolve, xpbd_frame_no_collision, xpbd_frame_with_self_collision,
    xpbd_substep_no_collision, xpbd_substep_with_self_collision, XpbdCpuTimeStepParams,
};
use glam::Vec3;

type F2 = fn(f32, f32) -> f32;
type B2 = fn(f32, f32) -> bool;
type F1 = fn(f32) -> f32;
type V2 = fn(Vec3, Vec3) -> Vec3;
type VS = fn(Vec3, f32) -> Vec3;

type Formulas = Arith<
    f32,
    Vec3,
    B2,
    B2,
    B2,
    F2,
    F2,
    F2,
    F2,
    F2,
    F2,
    F1,
    F1,
    F1,
    V2,
    V2,
    VS,
    VS,
    fn(Vec3) -> Vec3,
    fn(Vec3, Vec3) -> f32,
    fn(Vec3) -> f32,
    VS,
    VS,
    fn([f32; 4]) -> Vec3,
    fn(Vec3) -> [f32; 3],
    fn(f32) -> i32,
>;

const CORRECTION_CAP: f32 = 0.28;
const FRAME_SECS: f32 = 1.0 / 60.0;
const THICKNESS: f32 = 0.04;
const COLL_SCALE: f32 = 0.38;
const DRAG: f32 = 1.25;

fn formulas() -> Formulas {
    Arith {
        k: Constants {
            zero: 0.0,
            one: 1.0,
            tiny: 1e-8,
            tiny_sq: 1e-18,
            coincident: 1e-5,
            local_reach: 1.35,
            compress_min: 0.70,
            correction_cap: CORRECTION_CAP,
            grab_max_pull: 0.028,
            max_speed: 12.0,
            collision_clamp: 0.35,
            origin: Vec3::ZERO,
            up: Vec3::Y,
        },
        lt: |a, b| a < b,
        le: |a, b| a <= b,
        eq: |a, b| a == b,
        plus: |a, b| a + b,
        minus: |a, b| a - b,
        times: |a, b| a * b,
        over: |a, b| a / b,
        min: f32::min,
        max: f32::max,
        neg: |a| -a,
        sqrt: f32::sqrt,
        exp: f32::exp,
        v_plus: |a, b| a + b,
        v_minus: |a, b| a - b,
        v_times: |a, b| a * b,
        v_over: |a, b| a / b,
        v_neg: |a| -a,
        dot: Vec3::dot,
        height: |a| a.y,
        at_height: |a, y| Vec3::new(a.x, y, a.z),
        confine: |a, m| Vec3::new(a.x.clamp(-m, m), a.y.clamp(-m, m), a.z.clamp(-m, m)),
        xyz: |v| Vec3::new(v[0], v[1], v[2]),
        parts: |a| a.to_array(),
        floor: |a| a.floor() as i32,
    }
}

type P3 = [f32; 3];
type MeshFormulas = MeshOps<f32, fn(P3, P3) -> f32, fn(P3, P3, P3) -> f32, F2, F2, B2, B2, B2, B2>;

fn mesh_formulas() -> MeshFormulas {
    MeshOps {
        zero: 0.0,
        lowest: f32::NEG_INFINITY,
        dist: |a, b| (Vec3::from(a) - Vec3::from(b)).length(),
        mass_share: |a, b, c| {
            let area = 0.5 * (Vec3::from(b) - Vec3::from(a)).cross(Vec3::from(c) - Vec3::from(a)).length();
            if area > 0.0 {
                1.0 / area / 3.0
            } else {
                0.0
            }
        },
        plus: |a, b| a + b,
        larger: f32::max,
        at_top: |y, top| y >= top - 1e-5,
        le: |a, b| !(a > b),
        far: |a, b| (a - b).abs() > 2e-4,
        near: |line, x| (line - x).abs() <= 2e-4,
    }
}

fn compliances() -> Compliances<f32> {
    Compliances { stretch: 2e-8, bend: 3.8, skip2: 2.5e-8, cross_diag: 6e-9 }
}

fn hanging(quad_cols: u32, quad_rows: u32, cell: f32) -> ClothMeshData<f32> {
    let x0 = -0.5 * (quad_cols as f32 * cell);
    grid_cloth_hanging(
        quad_cols,
        quad_rows,
        &|ix: u32, iy: u32| [x0 + ix as f32 * cell, iy as f32 * cell, 0.0],
        &|ix: u32, iy: u32| [ix as f32 / quad_cols as f32, iy as f32 / quad_rows as f32],
        [0.0, 0.0, 1.0],
        compliances(),
        &mesh_formulas(),
    )
}

fn cloth_test_grid() -> ClothMeshData<f32> {
    hanging(16, 16, 0.045)
}

fn parse(text: &str) -> ClothMeshData<f32> {
    parse_welded_obj(
        text,
        &|w: &[char]| w.iter().collect::<String>().parse::<f32>().ok(),
        [0.0, 1.0, 0.0],
        compliances(),
        &mesh_formulas(),
    )
}

fn points(p: &[P3]) -> Vec<Vec3> {
    p.iter().map(|a| Vec3::from(*a)).collect()
}

fn substep_params() -> XpbdCpuTimeStepParams<f32, Vec3> {
    let sdt = FRAME_SECS / SUBSTEPS as f32;
    XpbdCpuTimeStepParams {
        dt: sdt,
        inv_dt: 1.0 / sdt,
        jacobi_omega: 1.0,
        inner_iterations: INNER_ITERS,
        gravity: Vec3::new(0.0, -9.81, 0.0),
        floor_y: -2.0,
        grab_idx: -1,
        grab_active: false,
        grab_target: Vec3::ZERO,
        grab_stiffness: 0.45,
        linear_drag_per_sec: DRAG,
    }
}

struct Sim {
    sim: Vec<Vec3>,
    prev: Vec<Vec3>,
    vel: Vec<Vec3>,
    jac: Vec<Vec3>,
}

fn start(cloth: &ClothMeshData<f32>) -> Sim {
    let n = cloth.num_particles as usize;
    Sim {
        sim: points(&cloth.positions),
        prev: vec![Vec3::ZERO; n],
        vel: vec![Vec3::ZERO; n],
        jac: vec![Vec3::ZERO; n],
    }
}

fn run_frame(s: &mut Sim, cloth: &ClothMeshData<f32>, p: &XpbdCpuTimeStepParams<f32, Vec3>) {
    xpbd_frame_no_collision(
        &mut s.sim,
        &mut s.prev,
        &mut s.vel,
        &mut s.jac,
        &cloth.inv_mass,
        &cloth.constraint_i,
        &cloth.constraint_j,
        &cloth.constraint_rest_len,
        &cloth.constraint_compliance,
        p,
        &formulas(),
    );
}

fn params_dt(dt: f32) -> SimParams<f32> {
    SimParams {
        dt,
        inv_dt: 1.0 / dt,
        inv_dt_sq: 1.0 / (dt * dt),
        constraint_batch_count: 0,
        num_particles: 1,
        num_tris: 0,
        jacobi_omega: 1.0,
        inner_iterations: 1,
        thickness: 0.04,
        coll_scale: 0.0,
        _pad_before_gravity: [0.0; 2],
        gravity: [0.0, -10.0, 0.0, 0.0],
        grab_target: [0.0; 4],
        grab_idx: -1,
        grab_active: 0,
        grab_stiffness: 0.0,
        _pad_legacy_floor: 0.0,
        linear_drag_per_sec: 0.0,
        constraint_batch_idx: 0,
        _uniform_pad_vec2_u: [0; 2],
        _uniform_pad_vec2_f: [0.0; 2],
        _uniform_encase_reserve: [0; 2],
    }
}

fn predict(p: &SimParams<f32>, i: u32, sim: Vec3, vel: Vec3, w: f32) -> (Vec3, Vec3) {
    formulas().predict_position(p, i, sim, vel, w)
}

#[test]
fn clamp_delta_vec_caps_long_corrections() {
    let d = formulas().clamp_delta_vec(Vec3::new(1.0, 0.0, 0.0));
    assert!((d.length() - CORRECTION_CAP).abs() < 1e-5);
}

#[test]
fn clamp_delta_vec_passes_short_corrections() {
    let v = Vec3::new(0.1, 0.0, 0.0);
    assert_eq!(formulas().clamp_delta_vec(v), v);
}

#[test]
fn predict_applies_gravity_and_leaves_pinned_still() {
    let p = params_dt(1.0 / 60.0);
    let (pos, vel) = predict(&p, 0, Vec3::ZERO, Vec3::ZERO, 1.0);
    assert!(vel.y < 0.0);
    assert!(pos.y < 0.0);

    let (pin_pos, pin_vel) = predict(&p, 0, Vec3::new(1.0, 2.0, 3.0), Vec3::ONE, 0.0);
    assert_eq!(pin_pos, Vec3::new(1.0, 2.0, 3.0));
    assert_eq!(pin_vel, Vec3::ONE);
}

#[test]
fn predict_grab_pulls_toward_target() {
    let mut p = params_dt(1.0 / 60.0);
    p.gravity = [0.0; 4];
    p.grab_active = 1;
    p.grab_idx = 0;
    p.grab_target = [1.0, 0.0, 0.0, 0.0];
    p.grab_stiffness = 1.0;
    let (pos, _) = predict(&p, 0, Vec3::ZERO, Vec3::ZERO, 1.0);
    assert!(pos.x > 0.0);
}

#[test]
fn grab_pull_is_limited_and_ignores_gravity() {
    let mut p = params_dt(1.0 / 60.0);
    p.grab_active = 1;
    p.grab_idx = 0;
    p.grab_target = [1.0, 0.0, 0.0, 0.0];
    p.grab_stiffness = 5.0;
    let (pos, vel) = predict(&p, 0, Vec3::ZERO, Vec3::new(0.0, 2.0, 0.0), 1.0);
    assert!((pos.x - 0.028).abs() < 1e-6);
    assert_eq!(pos.y, 0.0);
    assert_eq!(vel, Vec3::new(0.0, 2.0, 0.0));
}

#[test]
fn prediction_limits_the_speed() {
    let mut p = params_dt(1.0);
    p.gravity = [0.0, -100.0, 0.0, 0.0];
    let (pos, vel) = predict(&p, 0, Vec3::ZERO, Vec3::ZERO, 1.0);
    assert_eq!(vel.y, -12.0);
    assert_eq!(pos.y, -12.0);
}

#[test]
fn grab_particle_is_kinematic_for_constraints() {
    let mut p = params_dt(1.0 / 60.0);
    p.grab_active = 1;
    p.grab_idx = 3;
    assert_eq!(effective_inv_mass(&p, 3, 1.0, 0.0), 0.0);
    assert_eq!(effective_inv_mass(&p, 2, 1.0, 0.0), 1.0);
}

#[test]
fn xpbd_delta_lambda_zero_compliance_matches_macklin() {
    let dlam = formulas().xpbd_distance_delta_lambda(2.0, 1.0, 1.0, 1.0, 0.0, 1.0, 0.0);
    assert!((dlam - (-0.5)).abs() < 1e-5, "Δλ={dlam}");
}

#[test]
fn xpbd_delta_lambda_zero_when_both_pinned() {
    assert_eq!(formulas().xpbd_distance_delta_lambda(2.0, 1.0, 0.0, 0.0, 0.0, 1.0, 0.0), 0.0);
}

#[test]
fn xpbd_delta_lambda_hard_compress_floor() {
    let dlam = formulas().xpbd_distance_delta_lambda(0.5, 1.0, 1.0, 1.0, 1.0, 1.0, 0.0);
    assert!((dlam - 0.10).abs() < 1e-5, "Δλ={dlam}");
}

#[test]
fn delta_lambda_counts_compliance_and_multiplier() {
    // C = 1, softness = 2, so (-1 - 2 * 3) / (1 + 1 + 2).
    let dlam = formulas().xpbd_distance_delta_lambda(2.0, 1.0, 1.0, 1.0, 0.5, 4.0, 3.0);
    assert_eq!(dlam, -1.75);
    // A length of nothing gives nothing.
    assert_eq!(formulas().xpbd_distance_delta_lambda(0.0, 1.0, 1.0, 1.0, 0.5, 4.0, 3.0), 0.0);
}

#[test]
fn compressed_edges_ignore_their_compliance() {
    let f = formulas();
    assert_eq!(
        f.xpbd_distance_delta_lambda(0.5, 1.0, 1.0, 1.0, 1.0, 1.0, 0.0),
        f.xpbd_distance_delta_lambda(0.5, 1.0, 1.0, 1.0, 9.0, 7.0, 5.0)
    );
}

#[test]
fn self_collision_non_local_separates_to_thickness_shell() {
    let thickness = 0.04;
    let rest_i = Vec3::ZERO;
    let rest_j = Vec3::new(0.2, 0.0, 0.0);
    let p_i = Vec3::ZERO;
    let p_j = Vec3::new(0.01, 0.0, 0.0);
    let (hit, di, dj) = formulas()
        .self_collision_separation(thickness, 1.0, p_i, p_j, rest_i, rest_j, 1.0, 1.0);
    assert!(hit);
    let p_i2 = p_i + di;
    let p_j2 = p_j + dj;
    let d = (p_j2 - p_i2).length();
    assert!(
        (d - thickness).abs() < 1e-4,
        "expected full thickness separation, got {d}"
    );
}

#[test]
fn local_pairs_are_not_inflated() {
    let f = formulas();
    let rest_j = Vec3::new(0.02, 0.0, 0.0);
    let (hit, di, dj) = f.self_collision_separation(
        0.04,
        1.0,
        Vec3::ZERO,
        Vec3::new(0.03, 0.0, 0.0),
        Vec3::ZERO,
        rest_j,
        1.0,
        1.0,
    );
    assert_eq!((hit, di, dj), (false, Vec3::ZERO, Vec3::ZERO));
    // Compressed below its rest distance, the pair goes back to it.
    let (hit, di, dj) = f.self_collision_separation(
        0.04,
        1.0,
        Vec3::ZERO,
        Vec3::new(0.01, 0.0, 0.0),
        Vec3::ZERO,
        rest_j,
        1.0,
        1.0,
    );
    assert!(hit);
    assert!((dj.x - di.x - 0.01).abs() < 1e-6);
}

#[test]
fn coincident_particles_part_along_their_rest_offset() {
    let (hit, di, dj) = formulas().self_collision_separation(
        0.04,
        1.0,
        Vec3::ONE,
        Vec3::ONE,
        Vec3::ZERO,
        Vec3::new(0.0, 0.0, 1.0),
        1.0,
        3.0,
    );
    assert!(hit);
    assert!((di.z + 0.01).abs() < 1e-6);
    assert!((dj.z - 0.03).abs() < 1e-6);
    let (hit, _, _) = formulas().self_collision_separation(
        0.04,
        0.0,
        Vec3::ONE,
        Vec3::ONE,
        Vec3::ZERO,
        Vec3::ONE,
        1.0,
        3.0,
    );
    assert!(!hit);
}

#[test]
fn directions_are_unit_vectors_or_up() {
    assert_eq!(formulas().direction(Vec3::new(0.0, 0.0, 4.0)), Vec3::Z);
    assert_eq!(formulas().direction(Vec3::ZERO), Vec3::Y);
}

#[test]
fn collision_hash_packs_cell_and_neighbor_offsets() {
    let grid = CollGridUniform {
        grid_origin_pad: [0.0; 4],
        inv_cell: 10.0_f32,
        num_cells: 8,
        num_particles: 1,
        gx: 2,
        gy: 2,
        gz: 2,
        radix_digits: 1,
        _align_pad: 0,
        _reserved: [0; 4],
    };
    assert_eq!(formulas().collision_flat_packed(&grid, Vec3::new(0.15, 0.01, 0.01)), 1);
    assert_eq!(neighbor_flat(&grid, 1, -1, 0, 0), 0);
    assert_eq!(neighbor_flat(&grid, 0, -1, 0, 0), grid.num_cells);
}

#[test]
fn positions_round_down_to_their_cells() {
    let mut grid = CollGridUniform {
        grid_origin_pad: [1.0, -2.0, 0.5, 9.0],
        inv_cell: 4.0_f32,
        num_cells: 60,
        num_particles: 1,
        gx: 5,
        gy: 4,
        gz: 3,
        radix_digits: 1,
        _align_pad: 0,
        _reserved: [0; 4],
    };
    let f = formulas();
    assert_eq!(f.grid_coords(&grid, Vec3::new(1.0, -2.0, 0.5)), [0, 0, 0]);
    assert_eq!(f.grid_coords(&grid, Vec3::new(1.8, -2.1, 1.0)), [3, -1, 2]);
    // Outside of the grid the nearest cell counts.
    assert_eq!(f.collision_flat_packed(&grid, Vec3::new(1.8, -2.1, 1.0)), 3 + 2 * 20);
    assert_eq!(f.collision_flat_packed(&grid, Vec3::splat(1e30)), 59);
    assert_eq!(f.collision_flat_packed(&grid, Vec3::splat(f32::NAN)), 0);
    // The search of 27 cells finds every position within a cell size.
    grid.inv_cell = 3.0;
    let mut state = 5u64;
    let mut number = || {
        state = state.wrapping_mul(6364136223846793005).wrapping_add(1442695040888963407);
        (state >> 40) as f32 / (1u64 << 24) as f32
    };
    for _ in 0..500 {
        let p = Vec3::new(4.0 * number(), 4.0 * number() - 3.0, 3.0 * number());
        let d = Vec3::new(number(), number(), number()) * 2.0 - Vec3::ONE;
        let (a, b) = (
            f.collision_flat_packed(&grid, p),
            f.collision_flat_packed(&grid, p + d * (0.99 / grid.inv_cell)),
        );
        let found = (0..27)
            .any(|k| neighbor_flat(&grid, a, k % 3 - 1, (k / 3) % 3 - 1, k / 9 - 1) == b);
        assert!(found, "{p} {d}");
    }
}

#[test]
fn coincident_particles_without_a_rest_offset_part_upwards() {
    let f = formulas();
    let (hit, di, dj) = f.self_collision_separation(
        0.04,
        f32::INFINITY,
        Vec3::ONE,
        Vec3::ONE,
        Vec3::ZERO,
        Vec3::new(1e-9, 0.0, 0.0),
        1.0,
        1.0,
    );
    assert!(hit);
    assert_eq!((di.x, di.z), (0.0, 0.0));
    assert_eq!(dj, Vec3::new(0.0, f32::INFINITY, 0.0));
}

#[test]
fn cloth_mesh_inv_mass_and_neighbors_sane() {
    let cloth = cloth_test_grid();
    for (i, &w) in cloth.inv_mass.iter().enumerate() {
        assert!(w.is_finite(), "inv_mass[{}] = {} (non-finite)", i, w);
    }
}

#[test]
fn cpu_xpbd_cloth_one_frame_integrator_only_stays_finite() {
    let cloth = cloth_test_grid();
    let mut s = start(&cloth);
    let mut sub = substep_params();
    sub.jacobi_omega = 0.0;
    run_frame(&mut s, &cloth, &sub);
    assert!(s.sim.iter().all(|p| p.is_finite()));
}

#[test]
fn cpu_xpbd_cloth_one_frame_full_solver_stays_finite() {
    let cloth = cloth_test_grid();
    let mut s = start(&cloth);
    run_frame(&mut s, &cloth, &substep_params());
    assert!(
        s.sim.iter().all(|p| p.is_finite()),
        "expected finite positions after 1 frame CPU XPBD (matches WGSL predict gravity)"
    );
}

#[test]
fn cpu_xpbd_pins_hold_rest_positions() {
    let cloth = cloth_test_grid();
    let rest = points(&cloth.positions);
    let mut s = start(&cloth);
    let mut sub = substep_params();
    sub.grab_stiffness = 0.0;
    run_frame(&mut s, &cloth, &sub);
    let eps = 1e-4_f32;
    for i in 0..rest.len() {
        if cloth.inv_mass[i] <= 0.0 {
            assert!(
                (s.sim[i] - rest[i]).length() < eps,
                "pinned particle {} moved: {:?} vs {:?}",
                i,
                s.sim[i],
                rest[i]
            );
        }
    }
}

#[test]
fn cpu_xpbd_single_triangle_one_frame_finite() {
    let obj = "
v 0 0 0
v 1 0 0
v 0 1 0
vt 0 0
vt 1 0
vt 0 1
f 1/1 2/2 3/3
";
    let cloth = parse(obj);
    assert_eq!(cloth.num_particles, 3);
    let mut s = start(&cloth);
    let mut sub = substep_params();
    sub.gravity = Vec3::new(-1.0, -2.0, 0.5);
    sub.floor_y = -10.0;
    sub.grab_stiffness = 0.0;
    run_frame(&mut s, &cloth, &sub);
    for (i, p) in s.sim.iter().enumerate() {
        assert!(p.is_finite(), "tri particle {} = {:?}", i, p);
    }
}

#[test]
fn cpu_xpbd_cloth_15_frames_extent_stays_reasonable() {
    let cloth = cloth_test_grid();
    let n = cloth.num_particles as usize;
    let mut s = start(&cloth);
    let mut sub = substep_params();
    sub.grab_stiffness = 0.0;
    for _ in 0..15 {
        run_frame(&mut s, &cloth, &sub);
    }
    let mut min_b = Vec3::splat(f32::INFINITY);
    let mut max_b = Vec3::splat(f32::NEG_INFINITY);
    for i in 0..n {
        if cloth.inv_mass[i] > 0.0 {
            min_b = min_b.min(s.sim[i]);
            max_b = max_b.max(s.sim[i]);
        }
    }
    let ext = max_b - min_b;
    assert!(
        ext.x > 0.18 && ext.y > 0.04,
        "free-particle AABB nearly degenerate in XY (collapse / ball): {:?}",
        ext
    );
}

#[test]
fn cpu_self_collision_pair_separates_when_penetrating() {
    let inv_mass = vec![1.0_f32, 1.0];
    let rest_pos = vec![Vec3::ZERO, Vec3::new(0.1, 0.0, 0.0)];
    let mut sim = vec![Vec3::ZERO, Vec3::new(0.015, 0.0, 0.0)];
    let d0 = (sim[1] - sim[0]).length();
    self_collision_resolve(&mut sim, &inv_mass, &rest_pos, THICKNESS, COLL_SCALE, &formulas());
    let d1 = (sim[1] - sim[0]).length();
    assert!(
        d1 > d0 + 1e-4,
        "expected separation to grow: {} -> {}",
        d0,
        d1
    );
}

#[test]
fn cpu_self_collision_skips_when_world_separation_exceeds_rest() {
    let inv_mass = vec![1.0_f32, 1.0];
    let rest_pos = vec![Vec3::ZERO, Vec3::new(0.1, 0.0, 0.0)];
    let mut sim = vec![Vec3::ZERO, Vec3::new(0.15, 0.0, 0.0)];
    let before = sim.clone();
    self_collision_resolve(&mut sim, &inv_mass, &rest_pos, THICKNESS, COLL_SCALE, &formulas());
    assert_eq!(sim[0], before[0]);
    assert_eq!(sim[1], before[1]);
}

#[test]
fn cpu_self_collision_pinned_neighbor_takes_no_delta() {
    let inv_mass = vec![0.0_f32, 1.0];
    let rest_pos = vec![Vec3::ZERO, Vec3::new(0.1, 0.0, 0.0)];
    let mut sim = vec![Vec3::ZERO, Vec3::new(0.015, 0.0, 0.0)];
    let pin = sim[0];
    self_collision_resolve(&mut sim, &inv_mass, &rest_pos, THICKNESS, COLL_SCALE, &formulas());
    assert_eq!(sim[0], pin);
    assert!(
        sim[1].x > 0.015,
        "free particle should separate: {:?}",
        sim[1]
    );
}

#[test]
fn collisions_add_up_before_any_particle_moves() {
    // Three particles in a row: the middle one is pushed both ways alike.
    let inv_mass = vec![1.0_f32; 3];
    let rest_pos = vec![Vec3::ZERO, Vec3::new(1.0, 0.0, 0.0), Vec3::new(2.0, 0.0, 0.0)];
    let mut sim = vec![
        Vec3::new(-0.01, 0.0, 0.0),
        Vec3::ZERO,
        Vec3::new(0.01, 0.0, 0.0),
    ];
    self_collision_resolve(&mut sim, &inv_mass, &rest_pos, THICKNESS, 1.0, &formulas());
    assert!(sim[1].length() < 1e-7);
    assert!((sim[2].x + sim[0].x).abs() < 1e-7);
    // From the middle one (0.04 - 0.01) / 2, from the far one (0.04 - 0.02) / 2.
    assert!((sim[2].x - (0.01 + 0.015 + 0.01)).abs() < 1e-6);
}

#[test]
fn cpu_xpbd_cloth_one_frame_with_self_collision_stays_finite() {
    let cloth = cloth_test_grid();
    let rest = points(&cloth.positions);
    let mut s = start(&cloth);
    xpbd_frame_with_self_collision(
        &mut s.sim,
        &mut s.prev,
        &mut s.vel,
        &mut s.jac,
        &cloth.inv_mass,
        &cloth.constraint_i,
        &cloth.constraint_j,
        &cloth.constraint_rest_len,
        &cloth.constraint_compliance,
        &rest,
        THICKNESS,
        COLL_SCALE,
        &substep_params(),
        &formulas(),
    );
    assert!(
        s.sim.iter().all(|p| p.is_finite()),
        "expected finite positions after 1 frame with CPU self-collision"
    );
}

#[test]
fn one_constraint_goes_halfway_to_each_end() {
    let mut sim = vec![Vec3::ZERO, Vec3::new(1.2, 0.0, 0.0)];
    let (mut prev, mut vel, mut jac) = (sim.clone(), vec![Vec3::ZERO; 2], sim.clone());
    let mut p = substep_params();
    p.gravity = Vec3::ZERO;
    p.inner_iterations = 1;
    xpbd_substep_no_collision(
        &mut sim,
        &mut prev,
        &mut vel,
        &mut jac,
        &[1.0, 1.0],
        &[0],
        &[1],
        &[1.0],
        &[0.0],
        &p,
        &formulas(),
    );
    assert!((sim[0].x - 0.1).abs() < 1e-6);
    assert!((sim[1].x - 1.1).abs() < 1e-6);
    assert_eq!(jac, sim);
    assert_eq!(prev, vec![Vec3::ZERO, Vec3::new(1.2, 0.0, 0.0)]);
    let damp = (-DRAG * p.dt).exp();
    assert!((vel[0].x - 0.1 * p.inv_dt * damp).abs() < 1e-2);
}

#[test]
fn substeps_hold_the_floor_and_pull_the_grabbed() {
    let mut sim = vec![Vec3::new(0.0, -2.0, 0.0), Vec3::ZERO];
    let (mut prev, mut vel, mut jac) = (sim.clone(), vec![Vec3::ZERO; 2], sim.clone());
    let mut p = substep_params();
    p.grab_active = true;
    p.grab_idx = 1;
    p.grab_target = Vec3::new(2.0, 0.0, 0.0);
    p.grab_stiffness = 0.5;
    let rest = vec![Vec3::ZERO, Vec3::new(9.0, 0.0, 0.0)];
    xpbd_substep_with_self_collision(
        &mut sim,
        &mut prev,
        &mut vel,
        &mut jac,
        &[1.0, 1.0],
        &[],
        &[],
        &[],
        &[],
        &rest,
        THICKNESS,
        COLL_SCALE,
        &p,
        &formulas(),
    );
    assert_eq!(sim[0].y, -2.0);
    assert!((sim[1].x - 1.0).abs() < 1e-5);
}

#[test]
fn a_frame_is_all_its_substeps() {
    let cloth = hanging(3, 3, 0.1);
    let sub = substep_params();
    let mut a = start(&cloth);
    let mut b = start(&cloth);
    run_frame(&mut a, &cloth, &sub);
    for _ in 0..SUBSTEPS {
        xpbd_substep_no_collision(
            &mut b.sim,
            &mut b.prev,
            &mut b.vel,
            &mut b.jac,
            &cloth.inv_mass,
            &cloth.constraint_i,
            &cloth.constraint_j,
            &cloth.constraint_rest_len,
            &cloth.constraint_compliance,
            &sub,
            &formulas(),
        );
    }
    assert_eq!(a.sim, b.sim);
    assert_eq!(a.vel, b.vel);
    assert_eq!(a.prev, b.prev);
}

#[test]
fn batches_of_a_mesh_relax_its_edges() {
    // One iteration of the kernels over a stretched mesh, batch by batch.
    let cloth = hanging(4, 4, 0.1);
    let mut p = params_dt(1.0 / 60.0);
    p.constraint_batch_count = cloth.constraint_batch_count;
    p.num_particles = cloth.num_particles;
    let stretched: Vec<Vec3> = points(&cloth.positions).iter().map(|x| *x * 1.1).collect();
    let count = cloth.num_distance_constraints as usize;
    let f = formulas();
    let error = |jac: &[Vec3]| {
        (0..count)
            .filter(|&e| cloth.constraint_compliance[e] < 1.0)
            .map(|e| {
                let (i, j) = (cloth.constraint_i[e] as usize, cloth.constraint_j[e] as usize);
                ((jac[i] - jac[j]).length() - cloth.constraint_rest_len[e]).abs()
            })
            .sum::<f32>()
    };
    let solve = |reversed: bool| {
        let mut jac = stretched.clone();
        let (mut lambda, mut delta) = (vec![0.0; count], vec![0.0; count]);
        for b in 0..cloth.constraint_batch_count {
            let span = cloth.constraint_batch_offsets[b as usize + 1]
                - cloth.constraint_batch_offsets[b as usize];
            let mut invocations: Vec<u32> = (0..(span + 127) / 128 * 128).collect();
            if reversed {
                invocations.reverse();
            }
            for x in invocations {
                gs_edges(
                    [x, 0, 0],
                    &p,
                    &GsDynBatchUniform { head: [b, 0, 0, 0], _pad_bulk: [[0; 4]; 15] },
                    &mut jac,
                    &cloth.inv_mass,
                    &cloth.constraint_batch_offsets,
                    &cloth.constraint_i,
                    &cloth.constraint_j,
                    &cloth.constraint_rest_len,
                    &cloth.constraint_compliance,
                    &mut lambda,
                    &mut delta,
                    &f,
                );
            }
        }
        assert!(delta.iter().all(|d| d.is_finite()));
        jac
    };
    let relaxed = solve(false);
    assert!(error(&relaxed) < error(&stretched));
    // The order inside of a batch does not matter.
    assert_eq!(relaxed, solve(true));
}

#[test]
fn collisions_of_the_cpu_match_the_kernels() {
    let inv_mass = vec![1.0_f32, 1.0];
    let rest_pos = vec![Vec3::ZERO, Vec3::new(0.2, 0.0, 0.0)];
    let mut sim = vec![Vec3::ZERO, Vec3::new(0.01, 0.0, 0.0)];
    let f = formulas();
    let (hit, di, dj) = f.self_collision_separation(
        THICKNESS,
        1.0,
        sim[0],
        sim[1],
        rest_pos[0],
        rest_pos[1],
        1.0,
        1.0,
    );
    let expected = vec![sim[0] + di, sim[1] + dj];
    self_collision_resolve(&mut sim, &inv_mass, &rest_pos, THICKNESS, 1.0, &f);
    assert!(hit);
    assert_eq!(sim, expected);
    assert!(((sim[1] - sim[0]).length() - THICKNESS).abs() < 1e-4);
    // Coincident particles part along their rest offset on the CPU too.
    let mut sim = vec![Vec3::ONE, Vec3::ONE];
    self_collision_resolve(&mut sim, &inv_mass, &rest_pos, THICKNESS, 1.0, &f);
    assert!((sim[1].x - sim[0].x - THICKNESS).abs() < 1e-6);
}

#[test]
fn one_more_iteration_continues_a_substep() {
    let cloth = hanging(4, 3, 0.1);
    let mut p = substep_params();
    p.gravity = Vec3::new(1.0, -300.0, 2.0);
    p.inner_iterations = 3;
    let mut more = p;
    more.inner_iterations = 4;
    let mut rest = p;
    rest.inner_iterations = 1;
    rest.gravity = Vec3::ZERO;
    rest.floor_y = f32::NEG_INFINITY;
    let step = |s: &mut Sim, p: &XpbdCpuTimeStepParams<f32, Vec3>| {
        xpbd_substep_no_collision(
            &mut s.sim,
            &mut s.prev,
            &mut s.vel,
            &mut s.jac,
            &cloth.inv_mass,
            &cloth.constraint_i,
            &cloth.constraint_j,
            &cloth.constraint_rest_len,
            &cloth.constraint_compliance,
            p,
            &formulas(),
        )
    };
    let (mut a, mut b) = (start(&cloth), start(&cloth));
    step(&mut a, &p);
    a.vel = vec![Vec3::ZERO; a.vel.len()];
    step(&mut a, &rest);
    step(&mut b, &more);
    assert_eq!(a.sim, b.sim);
}

#[test]
fn a_frame_with_collisions_is_all_its_substeps() {
    let cloth = hanging(3, 3, 0.03);
    let sub = substep_params();
    let rest = points(&cloth.positions);
    let (mut a, mut b) = (start(&cloth), start(&cloth));
    xpbd_frame_with_self_collision(
        &mut a.sim,
        &mut a.prev,
        &mut a.vel,
        &mut a.jac,
        &cloth.inv_mass,
        &cloth.constraint_i,
        &cloth.constraint_j,
        &cloth.constraint_rest_len,
        &cloth.constraint_compliance,
        &rest,
        THICKNESS,
        COLL_SCALE,
        &sub,
        &formulas(),
    );
    for _ in 0..SUBSTEPS {
        xpbd_substep_with_self_collision(
            &mut b.sim,
            &mut b.prev,
            &mut b.vel,
            &mut b.jac,
            &cloth.inv_mass,
            &cloth.constraint_i,
            &cloth.constraint_j,
            &cloth.constraint_rest_len,
            &cloth.constraint_compliance,
            &rest,
            THICKNESS,
            COLL_SCALE,
            &sub,
            &formulas(),
        );
    }
    assert_eq!((a.sim, a.vel, a.prev, a.jac), (b.sim, b.vel, b.prev, b.jac));
}

#[test]
fn the_ends_of_a_constraint_are_alike() {
    let f = formulas();
    for (len, rest) in [(2.0, 1.0), (0.5, 1.0), (0.9, 1.0)] {
        assert_eq!(
            f.xpbd_distance_delta_lambda(len, rest, 1.0, 3.0, 0.5, 4.0, 3.0),
            f.xpbd_distance_delta_lambda(len, rest, 3.0, 1.0, 0.5, 4.0, 3.0)
        );
    }
    assert!(f.xpbd_distance_delta_lambda(0.5, 1.0, 1.0, 3.0, 0.5, 4.0, 3.0) > 0.0);
}

#[test]
fn an_inverse_mass_that_is_no_number_is_not_pinned() {
    let mut sim = vec![Vec3::ZERO];
    let (mut prev, mut vel, mut jac) = (sim.clone(), vec![Vec3::ZERO], sim.clone());
    xpbd_substep_no_collision(
        &mut sim,
        &mut prev,
        &mut vel,
        &mut jac,
        &[f32::NAN],
        &[],
        &[],
        &[],
        &[],
        &substep_params(),
        &formulas(),
    );
    assert!(sim[0].y < 0.0);
    assert!(vel[0].y < 0.0);
}
