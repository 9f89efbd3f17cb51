use bevy_softbody::arith::{Arith, Constants};
use bevy_softbody::atom::{add_i32, add_u32, load_i32, load_u32, store_i32, store_u32};
use bevy_softbody::common::{flat_packed, is_grabbed, neighbor_flat};
use bevy_softbody::gs::{
    accumulate_normals, clear_atomics, clear_constraint_lambda, clear_norm_atomics,
    coll_cell_bounds_clear, coll_histogram_clear, coll_perm_identity_ping, coll_radix_digit_count,
    coll_radix_digit_scatter, coll_radix_exclusive_bases_heads, coll_sorted_build_cell_ranges,
    collide_apply, collide_grid_cells, copy_jac_to_sim, finalize_normals, gs_edges,
    narrow_self_collision_pair, perm_final_read, perm_read, post_velocity, predict_copy_sim_to_jac,
    EMPTY_CELL,
};
use bevy_softbody::types::{
    CollGridUniform, CollRadixPassUniform, GsDynBatchUniform, SimParams, FIXSCALE,
};
use bevy_softbody::xpbd_cpu::self_collision_resolve;
use glam::Vec3;

type F2 = fn(f32, f32) -> f32;
type B2 = fn(f32, f32) -> bool;
type F1 = fn(f32) -> f32;
type V2 = fn(Vec3, Vec3) -> Vec3;
type VS = fn(Vec3, f32) -> Vec3;

type Formulas = Arith<
    f32,
    Vec3,
    B2,
    B2,
    B2,
    F2,
    F2,
    F2,
    F2,
    F2,
    F2,
    F1,
    F1,
    F1,
    V2,
    V2,
    VS,
    VS,
    fn(Vec3) -> Vec3,
    fn(Vec3, Vec3) -> f32,
    fn(Vec3) -> f32,
    VS,
    VS,
    fn([f32; 4]) -> Vec3,
    fn(Vec3) -> [f32; 3],
    fn(f32) -> i32,
>;

fn formulas() -> Formulas {
    Arith {
        k: Constants {
            zero: 0.0,
            one: 1.0,
            tiny: 1e-8,
            tiny_sq: 1e-18,
            coincident: 1e-5,
            local_reach: 1.35,
            compress_min: 0.70,
            correction_cap: 0.28,
            grab_max_pull: 0.028,
            max_speed: 12.0,
            collision_clamp: 0.35,
            origin: Vec3::ZERO,
            up: Vec3::Y,
        },
        lt: |a, b| a < b,
        le: |a, b| a <= b,
        eq: |a, b| a == b,
        plus: |a, b| a + b,
        minus: |a, b| a - b,
        times: |a, b| a * b,
        over: |a, b| a / b,
        min: f32::min,
        max: f32::max,
        neg: |a| -a,
        sqrt: f32::sqrt,
        exp: f32::exp,
        v_plus: |a, b| a + b,
        v_minus: |a, b| a - b,
        v_times: |a, b| a * b,
        v_over: |a, b| a / b,
        v_neg: |a| -a,
        dot: Vec3::dot,
        height: |a| a.y,
        at_height: |a, y| Vec3::new(a.x, y, a.z),
        confine: |a, m| Vec3::new(a.x.clamp(-m, m), a.y.clamp(-m, m), a.z.clamp(-m, m)),
        xyz: |v| Vec3::new(v[0], v[1], v[2]),
        parts: |a| a.to_array(),
        floor: |a| a.floor() as i32,
    }
}

fn fixed(d: Vec3) -> [i32; 3] {
    let s = FIXSCALE as f32;
    [(d.x * s) as i32, (d.y * s) as i32, (d.z * s) as i32]
}

fn unfixed(c: [i32; 3]) -> Vec3 {
    Vec3::new(c[0] as f32, c[1] as f32, c[2] as f32) / FIXSCALE as f32
}

fn params(n: u32) -> SimParams<f32> {
    SimParams {
        dt: 0.5,
        inv_dt: 2.0,
        inv_dt_sq: 4.0,
        constraint_batch_count: 0,
        num_particles: n,
        num_tris: 0,
        jacobi_omega: 1.0,
        inner_iterations: 1,
        thickness: 1.0,
        coll_scale: 1.0,
        _pad_before_gravity: [0.0; 2],
        gravity: [0.0, -1.0, 0.0, 0.0],
        grab_target: [0.0; 4],
        grab_idx: -1,
        grab_active: 0,
        grab_stiffness: 1.0,
        _pad_legacy_floor: 0.0,
        linear_drag_per_sec: 0.0,
        constraint_batch_idx: 0,
        _uniform_pad_vec2_u: [0; 2],
        _uniform_pad_vec2_f: [0.0; 2],
        _uniform_encase_reserve: [0; 2],
    }
}

fn grid(n: u32, dims: [u32; 3], digits: u32) -> CollGridUniform<f32> {
    CollGridUniform {
        grid_origin_pad: [0.0; 4],
        inv_cell: 1.0,
        num_cells: dims[0] * dims[1] * dims[2],
        num_particles: n,
        gx: dims[0],
        gy: dims[1],
        gz: dims[2],
        radix_digits: digits,
        _align_pad: 0,
        _reserved: [0; 4],
    }
}

fn batch(b: u32) -> GsDynBatchUniform {
    GsDynBatchUniform { head: [b, 0, 0, 0], _pad_bulk: [[0; 4]; 15] }
}

fn random(state: &mut u64) -> u32 {
    *state = state.wrapping_mul(6364136223846793005).wrapping_add(1442695040888963407);
    (*state >> 33) as u32
}

#[test]
fn perm_read_picks_the_buffer() {
    assert_eq!(perm_read(&[1, 2], &[3, 4], 1, true), 4);
    assert_eq!(perm_read(&[1, 2], &[3, 4], 1, false), 2);
    assert_eq!(perm_final_read(&[1, 2], &[3, 4], 0, 2), 1);
    assert_eq!(perm_final_read(&[1, 2], &[3, 4], 0, 3), 3);
}

#[test]
fn atomics_wrap_and_return_what_was_there() {
    let mut a = i32::MAX;
    assert_eq!(add_i32(&mut a, 1), i32::MAX);
    assert_eq!(load_i32(&a), i32::MIN);
    store_i32(&mut a, -4);
    assert_eq!(load_i32(&a), -4);
    let mut b = u32::MAX;
    assert_eq!(add_u32(&mut b, 3), u32::MAX);
    assert_eq!(load_u32(&b), 2);
    store_u32(&mut b, 9);
    assert_eq!(load_u32(&b), 9);
}

#[test]
fn cells_are_clamped_into_the_grid() {
    let g = grid(1, [4, 3, 2], 1);
    assert_eq!(flat_packed(&g, [0, 0, 0]), 0);
    assert_eq!(flat_packed(&g, [3, 2, 1]), 23);
    assert_eq!(flat_packed(&g, [-7, 99, 1]), 20);
    assert_eq!(neighbor_flat(&g, 23, 0, 0, -1), 11);
    assert_eq!(neighbor_flat(&g, 23, 1, 0, 0), 24);
    assert_eq!(neighbor_flat(&g, 11, 0, 0, 1), 23);
}

fn predict_all(
    p: &SimParams<f32>,
    sim: &mut [Vec3],
    inv_mass: &[f32],
    vel: &mut [Vec3],
) -> (Vec<Vec3>, Vec<Vec3>) {
    let (mut jac, mut prev) = (vec![Vec3::ZERO; sim.len()], vec![Vec3::ZERO; sim.len()]);
    for i in 0..sim.len() as u32 {
        predict_copy_sim_to_jac(
            [i, 0, 0],
            p,
            sim,
            &mut jac,
            &mut prev,
            vel,
            inv_mass,
            &formulas(),
        );
    }
    (jac, prev)
}

#[test]
fn a_pinned_particle_stays_even_where_it_is_grabbed() {
    let mut p = params(3);
    assert!(!is_grabbed(&p, 2));
    p.grab_active = 1;
    p.grab_idx = 2;
    p.grab_target = [1.0, 0.0, 0.0, 0.0];
    assert!(is_grabbed(&p, 2));
    let mut sim = [Vec3::ZERO; 3];
    let mut vel = [Vec3::ZERO; 3];
    predict_all(&p, &mut sim, &[1.0, 1.0, 0.0], &mut vel);
    assert_eq!(sim[2], Vec3::ZERO);
    assert_eq!(sim[0], Vec3::new(0.0, -0.25, 0.0));
    p.grab_idx = 1;
    p.grab_target = [1.0, -0.25, 0.0, 0.0];
    predict_all(&p, &mut sim, &[1.0, 1.0, 0.0], &mut vel);
    // The grabbed one follows its target, and gravity does not act on it.
    assert!((sim[1].x - 0.028).abs() < 1e-6);
    assert_eq!(sim[1].y, -0.25);
}

#[test]
fn prediction_seeds_the_solver() {
    let p = params(3);
    let x = Vec3::new(1.0, 2.0, 3.0);
    let v = Vec3::new(0.0, 2.0, 0.0);
    let inv_mass = [4.0, 0.0, f32::NAN, 1.0];
    let (mut sim, mut vel) = ([x; 4], [v; 4]);
    let (mut jac, prev) = predict_all(&p, &mut sim, &inv_mass, &mut vel);
    // Of the velocity (0, 1.5, 0) for half a second. What is no number is not pinned.
    let y = Vec3::new(1.0, 2.75, 3.0);
    let u = Vec3::new(0.0, 1.5, 0.0);
    assert_eq!(sim, [y, x, y, x]);
    assert_eq!(jac, [y, x, y, Vec3::ZERO]);
    assert_eq!(prev, [x, x, x, Vec3::ZERO]);
    assert_eq!(vel, [u, v, u, v]);
    jac[1] = Vec3::ZERO;
    for i in 0..4 {
        copy_jac_to_sim([i, 0, 0], &p, &mut sim, &jac);
    }
    assert_eq!(sim, [y, Vec3::ZERO, y, x]);
    for i in 0..4 {
        post_velocity([i, 0, 0], &p, &sim, &prev, &mut vel, &inv_mass, &formulas());
    }
    assert_eq!(vel, [u, v, u, v]);
    let mut slow = p;
    slow.linear_drag_per_sec = 2.0;
    post_velocity([0, 0, 0], &slow, &sim, &prev, &mut vel, &inv_mass, &formulas());
    assert!((vel[0].y - 1.5 * (-1.0f32).exp()).abs() < 1e-6);
}

#[test]
fn multipliers_are_cleared() {
    let (mut a, mut b) = ([5, 6], [7, 8]);
    clear_constraint_lambda([1, 0, 0], &mut a, &mut b, 0);
    clear_constraint_lambda([2, 0, 0], &mut a, &mut b, 0);
    assert_eq!((a, b), ([5, 0], [7, 0]));
}

#[test]
fn a_batch_moves_its_constraints_only() {
    let mut p = params(4);
    p.constraint_batch_count = 2;
    let offsets = [0, 1, 2];
    let (ci, cj) = ([0, 1], [1, 2]);
    let at = |x: f32| Vec3::new(x, 0.0, 0.0);
    let mut jac = [at(0.0), at(4.0), at(6.0), at(9.0)];
    let inv_mass = [1.0, 2.0, 0.0, 1.0];
    let (rest, comp) = ([1.0, 1.75], [0.0, 0.5]);
    let (mut lam, mut dlam) = ([1.0, 1.0], [9.0, 9.0]);
    let f = formulas();
    for (b, x) in [(1, 0), (1, 1), (2, 0)] {
        gs_edges(
            [x, 0, 0],
            &p,
            &batch(b),
            &mut jac,
            &inv_mass,
            &offsets,
            &ci,
            &cj,
            &rest,
            &comp,
            &mut lam,
            &mut dlam,
            &f,
        );
    }
    // Only constraint one was solved: C = 0.25, softness 2, so (-0.25 - 2 * 1) / (2 + 0 + 2). The
    // correction is capped, and the second end is pinned.
    assert_eq!((lam, dlam), ([1.0, 1.0 - 0.5625], [9.0, -0.5625]));
    assert_eq!((jac[0], jac[2], jac[3]), (at(0.0), at(6.0), at(9.0)));
    assert!((jac[1].x - 4.28).abs() < 1e-6);
    // A grabbed first end and a pinned second one leave nothing to solve.
    p.grab_active = 1;
    p.grab_idx = 1;
    let before = jac;
    gs_edges(
        [0, 0, 0],
        &p,
        &batch(1),
        &mut jac,
        &inv_mass,
        &offsets,
        &ci,
        &cj,
        &rest,
        &comp,
        &mut lam,
        &mut dlam,
        &f,
    );
    assert_eq!((jac, lam, dlam), (before, [1.0, 1.0 - 0.5625], [9.0, 0.0]));
}

#[test]
fn fixed_point_scale() {
    assert_eq!(FIXSCALE, 10_000);
}

struct BroadPhase {
    grid: CollGridUniform<f32>,
    ping: Vec<u32>,
    pong: Vec<u32>,
    start: Vec<u32>,
    end: Vec<u32>,
}

fn order(n: u32, reversed: bool) -> Vec<u32> {
    if reversed {
        (0..n).rev().collect()
    } else {
        (0..n).collect()
    }
}

/// Positions in the middle of unit cells.
fn centers(cells: &[[i32; 3]]) -> Vec<Vec3> {
    cells
        .iter()
        .map(|c| Vec3::new(c[0] as f32, c[1] as f32, c[2] as f32) + Vec3::splat(0.5))
        .collect()
}

fn broad_phase(cells: &[[i32; 3]], dims: [u32; 3], digits: u32, reversed: bool) -> BroadPhase {
    let n = cells.len() as u32;
    let sim = centers(cells);
    let f = formulas();
    let g = grid(n, dims, digits);
    let groups = (n + 255) / 256 * 256;
    let mut ping = vec![777; n as usize];
    let mut pong = vec![888; n as usize];
    let (mut hist, mut head) = ([3u32; 256], [4u32; 256]);
    for x in 0..groups {
        coll_perm_identity_ping([x, 0, 0], &g, &mut ping);
    }
    for d in 0..digits {
        let pass = CollRadixPassUniform { data: [d, 0, 0, 0] };
        for x in 0..256 {
            coll_histogram_clear([x, 0, 0], &mut hist);
        }
        for x in order(groups, reversed) {
            coll_radix_digit_count([x, 0, 0], &g, &pass, &sim, &mut hist, &ping, &pong, &f);
        }
        for x in 0..256 {
            coll_radix_exclusive_bases_heads([x, 0, 0], &hist, &mut head);
        }
        for x in order(groups, reversed && digits == 1) {
            coll_radix_digit_scatter(
                [x, 0, 0],
                &g,
                &pass,
                &sim,
                &mut head,
                &mut ping,
                &mut pong,
                &f,
            );
        }
    }
    let mut start = vec![5; g.num_cells as usize];
    let mut end = vec![6; g.num_cells as usize];
    for x in 0..g.num_cells + 3 {
        coll_cell_bounds_clear([x, 0, 0], &g, &mut start, &mut end);
    }
    for x in order(groups, reversed) {
        coll_sorted_build_cell_ranges(
            [x, 0, 0],
            &g,
            &sim,
            &ping,
            &pong,
            &mut start,
            &mut end,
            &f,
        );
    }
    BroadPhase { grid: g, ping, pong, start, end }
}

#[test]
fn the_radix_sort_orders_particles_by_cell() {
    let mut state = 7;
    for (dims, digits) in [([3, 3, 3], 1), ([40, 20, 10], 2), ([300, 300, 2], 3)] {
        let cells: Vec<[i32; 3]> = (0..500)
            .map(|_| {
                [
                    (random(&mut state) % (dims[0] + 2)) as i32 - 1,
                    (random(&mut state) % (dims[1] + 2)) as i32 - 1,
                    (random(&mut state) % (dims[2] + 2)) as i32 - 1,
                ]
            })
            .collect();
        let b = broad_phase(&cells, dims, digits, false);
        let perm: Vec<u32> =
            (0..500).map(|k| perm_final_read(&b.ping, &b.pong, k, digits)).collect();
        let mut expected: Vec<u32> = (0..500).collect();
        expected.sort_by_key(|&i| (flat_packed(&b.grid, cells[i as usize]), i));
        assert_eq!(perm, expected);
        for c in 0..b.grid.num_cells {
            let here: Vec<u32> = (0..500u32)
                .filter(|&i| flat_packed(&b.grid, cells[i as usize]) == c)
                .collect();
            let s = b.start[c as usize];
            if here.is_empty() {
                assert_eq!((s, b.end[c as usize]), (EMPTY_CELL, 0));
            } else {
                assert_eq!(&perm[s as usize..b.end[c as usize] as usize], &here[..]);
            }
        }
    }
}

#[test]
fn the_order_of_invocations_does_not_matter_to_the_ranges() {
    let mut state = 31;
    for (dims, digits) in [([5, 4, 3], 1), ([40, 20, 10], 2)] {
        let cells: Vec<[i32; 3]> = (0..300)
            .map(|_| {
                [
                    (random(&mut state) % dims[0]) as i32,
                    (random(&mut state) % dims[1]) as i32,
                    (random(&mut state) % dims[2]) as i32,
                ]
            })
            .collect();
        let a = broad_phase(&cells, dims, digits, false);
        let b = broad_phase(&cells, dims, digits, true);
        assert_eq!((a.start, a.end), (b.start, b.end));
        // The same particles, and each in a place of its cell.
        let cell = |p: &BroadPhase, k: usize| {
            let i = perm_final_read(&p.ping, &p.pong, k, digits);
            (i, flat_packed(&p.grid, cells[i as usize]))
        };
        let perm = |p: &[u32], q: &[u32]| {
            let g = BroadPhase {
                grid: a.grid,
                ping: p.to_vec(),
                pong: q.to_vec(),
                start: vec![],
                end: vec![],
            };
            (0..300).map(|k| cell(&g, k)).collect::<Vec<_>>()
        };
        let (x, y) = (perm(&a.ping, &a.pong), perm(&b.ping, &b.pong));
        assert!(x.iter().zip(&y).all(|(u, v)| u.1 == v.1));
        let mut ids: Vec<u32> = y.iter().map(|u| u.0).collect();
        ids.sort();
        assert_eq!(ids, (0..300).collect::<Vec<u32>>());
    }
}

#[test]
fn every_adjacent_pair_collides_once() {
    let mut state = 99;
    let dims = [6, 5, 4];
    let n = 120;
    let mut number = || (random(&mut state) % 1000) as f32 / 1000.0;
    // Positions in a grid of unit cells, so that pairs in contact are in touching cells.
    let sim: Vec<Vec3> =
        (0..n).map(|_| Vec3::new(6.0 * number(), 5.0 * number(), 4.0 * number())).collect();
    let rest: Vec<Vec3> = (0..n).map(|i| Vec3::new(10.0 * i as f32, 0.0, 0.0)).collect();
    let cells: Vec<[i32; 3]> =
        sim.iter().map(|x| [x.x as i32, x.y as i32, x.z as i32]).collect();
    let mut inv_mass = vec![1.0; n as usize];
    inv_mass[7] = 0.0;
    inv_mass[8] = 2.0;
    let b = broad_phase(&cells, dims, 1, true);
    let mut p = params(n);
    p.grab_active = 1;
    p.grab_idx = 9;
    let f = formulas();
    let mut acc = vec![123; 3 * n as usize];
    for x in 0..3 * n + 5 {
        clear_atomics([x, 0, 0], &p, &mut acc);
    }
    assert_eq!(acc, vec![0; 3 * n as usize]);
    let collide = |p: &SimParams<f32>, acc: &mut [i32]| {
        for x in 0..256 {
            collide_grid_cells(
                [x, 0, 0],
                p,
                &b.grid,
                &sim,
                &rest,
                &inv_mass,
                acc,
                &b.ping,
                &b.pong,
                &b.start,
                &b.end,
                &fixed,
                &f,
            );
        }
    };
    collide(&p, &mut acc);
    // All pairs, in another order.
    let mut expected = vec![0; 3 * n as usize];
    for j in (0..n).rev() {
        for i in 0..j {
            narrow_self_collision_pair(
                &p,
                &sim,
                &rest,
                &inv_mass,
                &mut expected,
                i,
                j,
                &fixed,
                &f,
            );
        }
    }
    assert_eq!(acc, expected);
    assert!(acc.iter().filter(|c| **c != 0).count() > 200);
    assert_eq!(&acc[21..24], &[0, 0, 0]);
    assert_eq!(&acc[27..30], &[0, 0, 0]);
    let mut off = p;
    off.coll_scale = 0.0;
    collide(&off, &mut acc);
    assert_eq!(acc, expected);
    // Without a grab the kernels move the particles as the solver on the CPU does, up to what the
    // fixed point cuts off.
    p.grab_active = 0;
    let mut sums = vec![0; 3 * n as usize];
    collide(&p, &mut sums);
    let (mut moved, mut on_cpu) = (sim.clone(), sim.clone());
    for x in 0..n {
        collide_apply([x, 0, 0], &p, &mut moved, &inv_mass, &sums, &unfixed, &f);
    }
    self_collision_resolve(&mut on_cpu, &inv_mass, &rest, 1.0, 1.0, &f);
    for i in 0..n as usize {
        assert!((moved[i] - on_cpu[i]).length() < 1e-2);
    }
    assert_ne!(moved, sim);
    assert_eq!(moved[7], sim[7]);
}

#[test]
fn pinned_and_grabbed_particles_take_no_displacement() {
    let mut p = params(3);
    p.grab_active = 1;
    p.grab_idx = 2;
    let f = formulas();
    let sim = [Vec3::ZERO, Vec3::new(0.5, 0.0, 0.0), Vec3::new(0.0, 0.75, 0.0)];
    let rest = [Vec3::ZERO, Vec3::new(9.0, 0.0, 0.0), Vec3::new(0.0, 9.0, 0.0)];
    let inv_mass = [1.0, 0.0, 1.0];
    let mut acc = vec![0; 9];
    for (i, j) in [(0, 1), (1, 2), (0, 2)] {
        narrow_self_collision_pair(&p, &sim, &rest, &inv_mass, &mut acc, i, j, &fixed, &f);
    }
    assert_eq!(acc, vec![-5000, -2500, 0, 0, 0, 0, 0, 0, 0]);
    let mut moved = sim;
    for x in 0..4 {
        collide_apply(
            [x, 0, 0],
            &p,
            &mut moved,
            &inv_mass,
            &[-5000, 2500, 1, 4, 5, 6, 7, 8, 9],
            &unfixed,
            &f,
        );
    }
    // At most 0.35 along an axis.
    assert_eq!(moved, [Vec3::new(-0.35, 0.25, 0.0001), sim[1], sim[2]]);
}

#[test]
fn normals_add_up_at_corners() {
    let mut p = params(4);
    p.num_tris = 2;
    let sim = [Vec3::ZERO, Vec3::X, Vec3::Y, Vec3::X + Vec3::Y];
    let mut acc = vec![55; 12];
    for x in 0..13 {
        clear_norm_atomics([x, 0, 0], &p, &mut acc[..]);
    }
    assert_eq!(acc, vec![0; 12]);
    let f = formulas();
    for x in 0..3 {
        accumulate_normals(
            [x, 0, 0],
            &p,
            &sim,
            &[0, 1, 2, 1, 3, 2],
            &mut acc,
            &|a: Vec3, b: Vec3| a.cross(b),
            &fixed,
            &f,
        );
    }
    assert_eq!(acc, vec![0, 0, 10_000, 0, 0, 20_000, 0, 0, 20_000, 0, 0, 10_000]);
    acc[10] = 10_000;
    acc[11] = 0;
    acc[2] = 0;
    let (mut pos, mut nrm) = ([Vec3::ZERO; 4], [Vec3::ZERO; 4]);
    for x in 0..5 {
        finalize_normals([x, 0, 0], &p, &sim, &mut pos, &mut nrm, &acc, &unfixed, &f);
    }
    assert_eq!((pos, nrm), (sim, [Vec3::Y, Vec3::Z, Vec3::Z, Vec3::Y]));
}
