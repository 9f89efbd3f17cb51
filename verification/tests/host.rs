use bevy_softbody::cloth_compute::{
    check_cloth_pipeline, gs_frame_commands, init_is_due, radix_digits_for,
    sync_cloth_solve_budget_to_uniforms, told_batch_count, ClothCollGridGpu, ClothLoadState, ClothSimConfig,
    ClothSimControl, ClothSimNode, ClothSimParamsGpu, ClothSimUniforms, CollisionGrid,
    PipelineCheck, PipelineStatus, CLOTH_SHADER, COLLISION_PAIR_FIXSCALE, INNER_ITERS, SUBSTEPS, resolves_collisions,
};
use bevy_softbody::cloth_jacobi::{
    binding_slots, jacobi_default_inner_iters, jacobi_frame_commands, pack_neighbor_gpu,
    run_cloth_sim_jacobi, solver_bindings,
};
use bevy_softbody::device::{
    awaited_kernels, batch_slots, gs_slots, index_bytes, initial_uploads, jacobi_slots, min_bytes, offset_bytes,
    padded, radix_pass_bytes, solver_buffers, solver_kernels, Access, Bound, ClothBuffer, Solver, Source,
};
use bevy_softbody::frame::{group_count, Binding, Command, Kernel, Pass};
use bevy_softbody::mesh_prep::{grid_cloth_hanging, ClothMeshData, Compliances, MeshOps};

// Scalars are integers here: the host only carries them.
fn mesh() -> ClothMeshData<i64> {
    grid_cloth_hanging(
        3,
        2,
        &|x: u32, y: u32| [x as i64, y as i64, 0],
        &|x: u32, y: u32| [x as i64, y as i64],
        [0, 0, 1],
        Compliances { stretch: 1, bend: 2, skip2: 3, cross_diag: 4 },
        &MeshOps {
            zero: 0,
            lowest: i64::MIN,
            dist: |a: [i64; 3], b: [i64; 3]| {
                (a[0] - b[0]).abs() + (a[1] - b[1]).abs() + (a[2] - b[2]).abs()
            },
            mass_share: |_: [i64; 3], _: [i64; 3], _: [i64; 3]| 1,
            plus: |a: i64, b: i64| a + b,
            larger: |a: i64, b: i64| a.max(b),
            at_top: |y: i64, top: i64| y >= top,
            le: |a: i64, b: i64| a <= b,
            far: |a: i64, b: i64| a != b,
            near: |a: i64, b: i64| a == b,
        },
    )
}

fn config() -> ClothSimConfig<i64> {
    mesh().to_sim_config(
        CollisionGrid { origin: [7, 8, 9], inv_cell: 5, dims: [20, 20, 2] },
        0,
        &|i: u32| i as i64,
    )
}

fn dispatches(c: &[Command]) -> usize {
    c.iter().filter(|c| matches!(c, Command::Dispatch(_))).count()
}

fn uniforms() -> ClothSimUniforms<i64> {
    ClothSimUniforms {
        dt: 1,
        inv_dt: 12,
        num_particles: 3,
        num_tris: 4,
        jacobi_omega: 5,
        inner_iterations: 6,
        thickness: 7,
        coll_scale: 8,
        gravity: [9, 10, 11, 12],
        grab_target: [13, 14, 15, 16],
        grab_idx: -17,
        grab_active: 18,
        grab_stiffness: 19,
        floor_y: 20,
        linear_drag_per_sec: 21,
        constraint_batch_idx: 22,
    }
}

#[test]
fn constants_are_as_documented() {
    assert_eq!((SUBSTEPS, INNER_ITERS, COLLISION_PAIR_FIXSCALE), (36, 22, 10_000));
    assert_eq!(CLOTH_SHADER, "shaders/cloth_sim.wgsl");
    assert_eq!(jacobi_default_inner_iters(), 22);
}

#[test]
fn parameters_are_packed() {
    let g = ClothSimParamsGpu::pack(&uniforms(), 99, 0, &|a: i64, b: i64| a * b);
    assert_eq!((g.dt, g.inv_dt, g.inv_dt_sq), (1, 12, 144));
    assert_eq!((g.constraint_batch_count, g.num_particles, g.num_tris), (99, 3, 4));
    assert_eq!(g.gravity, [9, 10, 11, 12]);
    assert_eq!((g.grab_idx, g.grab_active, g.floor_y), (-17, 18, 20));
    assert_eq!(g._pad_before_gravity, [0, 0]);
}

#[test]
fn the_grid_is_packed() {
    let g = ClothCollGridGpu::pack_from_config(&config(), -1);
    assert_eq!(g.grid_origin_pad, [7, 8, 9, -1]);
    assert_eq!((g.inv_cell, g.num_cells, g.num_particles), (5, 800, 12));
    assert_eq!((g.gx, g.gy, g.gz, g.radix_digits), (20, 20, 2, 2));
}

#[test]
fn settings_come_from_the_mesh() {
    let m = mesh();
    let c = config();
    assert_eq!((c.solve_substeps, c.solve_inner_iterations, c.collision_every_n_substeps), (36, 22, 1));
    assert_eq!((c.num_particles, c.num_tris), (12, 12));
    assert_eq!(c.num_distance_constraints, m.num_distance_constraints);
    assert_eq!(c.constraint_batch_offsets, m.constraint_batch_offsets);
    assert_eq!(c.constraint_rest_len, m.constraint_rest_len);
    assert_eq!(c.initial_pos[5], [1, 1, 0, 0]);
    assert_eq!(c.tri_indices, m.indices);
    assert_eq!(c.neighbor_packed.len(), m.neighbor_other.len());
}

#[test]
fn neighbors_are_packed_in_rows() {
    let m = mesh();
    let p = pack_neighbor_gpu(&m, &|i: u32| 1000 + i as i64);
    for k in 0..p.len() {
        assert_eq!(
            p[k],
            [
                1000 + m.neighbor_other[k] as i64,
                m.neighbor_rest_len[k],
                m.neighbor_compliance[k],
                1000 + m.neighbor_constraint_id[k] as i64
            ]
        );
    }
}

#[test]
fn only_the_slices_of_particles_are_packed() {
    let mut m = mesh();
    let all = pack_neighbor_gpu(&m, &|i: u32| i as i64);
    assert_eq!(all.len(), m.neighbor_other.len());
    // Without particles there are no slices.
    m.num_particles = 0;
    assert!(m.has_sliced_neighbors());
    assert!(pack_neighbor_gpu(&m, &|i: u32| i as i64).is_empty());
    // The slice of the second particle alone, and then one that ends before it begins.
    let (s, e) = (m.neighbor_offsets[1], m.neighbor_offsets[2]);
    m.num_particles = 2;
    m.neighbor_offsets = vec![e, s, e];
    assert!(m.has_sliced_neighbors());
    assert_eq!(pack_neighbor_gpu(&m, &|i: u32| i as i64), &all[s as usize..e as usize]);
    m.neighbor_rest_len.truncate(s as usize);
    assert!(!m.has_sliced_neighbors());
    m.neighbor_offsets.truncate(2);
    assert!(!m.has_sliced_neighbors());
}

#[test]
fn grids_need_cells_that_can_be_numbered() {
    let grid = |dims| CollisionGrid { origin: [0; 3], inv_cell: 1, dims };
    assert!(grid([1, 1, 1]).is_wf());
    assert!(grid([65536, 65535, 1]).is_wf());
    assert!(!grid([65536, 65536, 1]).is_wf());
    assert!(!grid([0, 5, 5]).is_wf());
    assert!(!grid([u32::MAX, 1, 1]).is_wf());
}

#[test]
fn radix_digits_tell_cells_apart() {
    for (cells, digits) in [
        (0, 1),
        (1, 1),
        (256, 1),
        (257, 2),
        (65536, 2),
        (65537, 3),
        (1 << 24, 3),
        (u32::MAX, 4),
    ] {
        assert_eq!(radix_digits_for(cells), digits);
    }
}

#[test]
fn the_budget_goes_to_the_uniforms() {
    let mut c = config();
    c.solve_substeps = 0;
    c.solve_inner_iterations = 9;
    let mut u = uniforms();
    sync_cloth_solve_budget_to_uniforms(&c, &mut u, &|n: u32| 600 / n as i64, &|a: i64| -a);
    assert_eq!((u.dt, u.inv_dt, u.inner_iterations, u.thickness), (600, -600, 9, 7));
}

#[test]
fn buffers_are_made_once() {
    let c = config();
    assert!(init_is_due(false, Some(&c)));
    assert!(!init_is_due(true, Some(&c)));
    assert!(!init_is_due::<i64>(false, None));
    let mut empty = config();
    empty.num_particles = 0;
    assert!(!init_is_due(false, Some(&empty)));
}

#[test]
fn all_pipelines_have_to_be_done() {
    let (d, p, b) = (PipelineStatus::Done, PipelineStatus::Pending, PipelineStatus::Broken);
    let loading = ClothLoadState::default();
    assert_eq!(loading, ClothLoadState::Loading);
    let ready = PipelineCheck::State(ClothLoadState::Ready);
    assert_eq!(check_cloth_pipeline(loading, &[d, d, d, d]), ready);
    assert_eq!(check_cloth_pipeline(loading, &[d, p, b]), PipelineCheck::State(loading));
    assert_eq!(check_cloth_pipeline(loading, &[d, b, p]), PipelineCheck::Failed(1));
    assert_eq!(check_cloth_pipeline(ClothLoadState::Ready, &[b]), ready);
}

#[test]
fn paused_steps_run_once() {
    let mut node = ClothSimNode::default();
    let mut ctrl = ClothSimControl::default();
    assert!(!ctrl.sim_paused);
    let ready = ClothLoadState::Ready;
    assert!(node.runs(&ctrl, ready, true));
    assert!(!node.runs(&ctrl, ClothLoadState::Loading, true));
    assert!(!node.runs(&ctrl, ready, false));
    ctrl.sim_paused = true;
    let mut runs = 0;
    for serial in [0, 0, 1, 1, 1, 2, 2, 5] {
        ctrl.step_serial = serial;
        if node.runs(&ctrl, ready, true) {
            runs += 1;
            node.acknowledge(&ctrl);
        }
    }
    assert_eq!(runs, 3);
}

#[test]
fn a_gauss_seidel_frame_has_the_documented_dispatches() {
    let mut c = config();
    c.solve_substeps = 4;
    c.solve_inner_iterations = 3;
    let (s, i, b, r) = (4, 3, c.constraint_batch_count as usize, 2);
    let quiet = gs_frame_commands(&c, false);
    assert_eq!(dispatches(&quiet), s * (3 + i * (b + 1)) + 3);
    let loud = gs_frame_commands(&c, true);
    assert_eq!(dispatches(&loud), s * (6 + i * (b + 1)) + 3 + s * (3 + 4 * r));
    c.collision_every_n_substeps = 3;
    let some = gs_frame_commands(&c, true);
    assert_eq!(dispatches(&some), s * (3 + i * (b + 1)) + 3 + (6 + 4 * r));
}

#[test]
fn iterations_clear_the_multipliers_first() {
    let mut c = config();
    c.solve_substeps = 1;
    c.solve_inner_iterations = 2;
    let f = gs_frame_commands(&c, false);
    let at = f
        .iter()
        .position(|x| *x == Command::BeginPass(Pass::DistanceGaussSeidel))
        .unwrap();
    assert_eq!(f[at + 1], Command::Bind(Binding::Cloth(0)));
    assert_eq!(f[at + 2], Command::SetPipeline(Kernel::ClearConstraintLambda));
    assert_eq!(f[at + 3], Command::Dispatch((c.num_distance_constraints + 63) / 64));
    assert_eq!(f[at + 4], Command::SetPipeline(Kernel::GsEdges));
    assert_eq!(f[at + 5], Command::Bind(Binding::Cloth(0)));
    assert_eq!(f[at + 6], Command::Dispatch(1));
    assert_eq!(f[at + 7], Command::Bind(Binding::Cloth(256)));
    let again = at + 5 + 2 * c.constraint_batch_count as usize;
    assert_eq!(f[at + 1..at + 6], f[again..again + 5]);
}

#[test]
fn without_constraints_nothing_is_solved() {
    let mut c = config();
    c.num_distance_constraints = 0;
    c.solve_substeps = 1;
    for f in [gs_frame_commands(&c, false), jacobi_frame_commands(&c, false)] {
        assert_eq!(dispatches(&f), 6);
        assert!(!f.contains(&Command::SetPipeline(Kernel::ClearConstraintLambda)));
    }
}

#[test]
fn collisions_come_in_the_last_of_the_substeps() {
    let mut c = config();
    c.solve_substeps = 4;
    c.collision_every_n_substeps = 2;
    let f = gs_frame_commands(&c, true);
    let kinds: Vec<char> = f
        .iter()
        .filter_map(|x| match x {
            Command::BeginPass(Pass::IntegrateJacSeed) => Some('i'),
            Command::BeginPass(Pass::CollisionGridNarrow) => Some('c'),
            Command::WriteRadixPass(0) => Some('0'),
            Command::WriteRadixPass(1) => Some('1'),
            _ => None,
        })
        .collect();
    assert_eq!(kinds.iter().collect::<String>(), "ii01cii01c");
}

#[test]
fn jacobi_iterations_alternate() {
    let mut c = config();
    c.solve_substeps = 1;
    for (iterations, last) in [(1, Binding::CopyFromA), (2, Binding::CopyFromB), (3, Binding::CopyFromA)] {
        c.solve_inner_iterations = iterations;
        let f = jacobi_frame_commands(&c, false);
        let binds: Vec<Binding> = f
            .iter()
            .filter_map(|x| match x {
                Command::Bind(b) => Some(*b),
                _ => None,
            })
            .collect();
        let mut expected = vec![Binding::Base];
        for k in 0..iterations {
            expected.push(if k % 2 == 0 { Binding::JacBToA } else { Binding::JacAToB });
        }
        expected.push(last);
        expected.extend([Binding::Base; 4]);
        assert_eq!(binds, expected);
        assert_eq!(dispatches(&f), 3 + 3 * iterations as usize + 3);
    }
}

#[test]
fn without_constraints_the_prediction_is_taken_over() {
    let mut c = config();
    c.num_distance_constraints = 0;
    for iterations in 0..4 {
        c.solve_inner_iterations = iterations;
        let f = jacobi_frame_commands(&c, false);
        assert!(f.contains(&Command::Bind(Binding::CopyFromB)));
        assert!(!f.contains(&Command::Bind(Binding::CopyFromA)));
    }
}

#[test]
fn a_strength_of_zero_or_less_disables_collisions() {
    let mut u = uniforms();
    let lt = |a: i64, b: i64| a < b;
    assert!(resolves_collisions(&u, 0, &lt));
    u.coll_scale = 0;
    assert!(!resolves_collisions(&u, 0, &lt));
    u.coll_scale = -1;
    assert!(!resolves_collisions(&u, 0, &lt));
}

#[test]
fn a_jacobi_frame_acknowledges_its_step() {
    let c = config();
    let ctrl = ClothSimControl { sim_paused: true, step_serial: 5 };
    let mut last = 0;
    let f = run_cloth_sim_jacobi(&c, true, &mut last, &ctrl);
    assert_eq!(last, 5);
    assert_eq!(f, jacobi_frame_commands(&c, true));
}

#[test]
fn bindings_read_and_write_opposite_buffers() {
    assert_eq!(binding_slots(Binding::JacBToA), jacobi_slots(ClothBuffer::JacB, ClothBuffer::JacA));
    assert_eq!(binding_slots(Binding::CopyFromA), jacobi_slots(ClothBuffer::JacA, ClothBuffer::JacB));
    let s = binding_slots(Binding::JacAToB);
    assert_eq!(s.len(), 29);
    assert_eq!((s[2].bound, s[2].access), (Bound::Buffer(ClothBuffer::JacA), Access::ReadOnly));
    assert_eq!((s[3].bound, s[3].access), (Bound::Buffer(ClothBuffer::JacB), Access::ReadWrite));
}

#[test]
fn slots_have_the_numbers_of_the_kernels() {
    let s = gs_slots();
    assert_eq!(s.len(), 28);
    let at = |k: usize| s[k].bound;
    assert_eq!(at(0), Bound::Buffer(ClothBuffer::ParamsUniform));
    assert_eq!(at(7), Bound::Buffer(ClothBuffer::ConstraintBatchOffsets));
    assert_eq!(at(15), Bound::RenderPositions);
    assert_eq!(s[19].access, Access::DynamicUniform);
    assert_eq!(at(27), Bound::Buffer(ClothBuffer::CollCellEndExclusive));
}

#[test]
fn buffers_have_room_for_what_they_start_with() {
    let c = config().buffer_counts();
    assert_eq!(c.bytes(ClothBuffer::SimPos), 16 * 12);
    assert_eq!(c.bytes(ClothBuffer::AtomicNorm), 12 * 12);
    assert_eq!(c.bytes(ClothBuffer::GsBatchDyn), 256 * c.batches as u64);
    assert_eq!(c.bytes(ClothBuffer::CollCellStart), 4 * 800);
    assert_eq!(c.bytes(ClothBuffer::ParamsUniform), 128);
    assert_eq!(min_bytes(&c, Bound::Buffer(ClothBuffer::CollPermPing)), Some(48));
    assert_eq!(min_bytes(&c, Bound::Buffer(ClothBuffer::GsBatchDyn)), Some(256));
    assert_eq!(min_bytes(&c, Bound::RenderNormals), None);
    let mut empty = c;
    empty.constraints = 0;
    empty.batches = 0;
    empty.cells = 0;
    assert_eq!(empty.bytes(ClothBuffer::ConstraintI), 4);
    assert_eq!(empty.bytes(ClothBuffer::GsBatchDyn), 256);
    assert_eq!(empty.bytes(ClothBuffer::CollCellStart), 4);
}

#[test]
fn uploads_come_in_order() {
    let c = config().buffer_counts();
    let u = initial_uploads(Solver::GaussSeidel, &c);
    assert_eq!(u.len(), 18);
    assert_eq!((u[1].to, u[1].from), (ClothBuffer::GsBatchDyn, Source::BatchSlots));
    let mut none = c;
    none.constraints = 0;
    none.neighbor_entries = 0;
    assert_eq!(initial_uploads(Solver::GaussSeidel, &none).len(), 14);
    assert_eq!(initial_uploads(Solver::Jacobi, &none).len(), 14);
    assert_eq!(initial_uploads(Solver::Jacobi, &c).len(), 19);
    for s in [Solver::GaussSeidel, Solver::Jacobi] {
        let buffers = solver_buffers(s);
        for x in initial_uploads(s, &c) {
            assert!(buffers.contains(&x.to));
        }
    }
}

#[test]
fn batch_slots_start_with_their_number() {
    let b = batch_slots(300);
    assert_eq!(b.len(), 300 * 256);
    for k in 0..300usize {
        assert_eq!(&b[256 * k..256 * k + 4], &(k as u32).to_le_bytes());
        assert!(b[256 * k + 4..256 * (k + 1)].iter().all(|&x| x == 0));
    }
    assert_eq!(batch_slots(0), vec![0; 256]);
}

#[test]
fn words_become_bytes() {
    let native = |v: &[u32]| v.iter().flat_map(|w| w.to_ne_bytes()).collect::<Vec<u8>>();
    assert_eq!(padded(&[7], 2), vec![7, 0]);
    assert_eq!(padded(&[7, 8, 9], 2), vec![7, 8, 9]);
    assert_eq!(offset_bytes(&[0x01020304]), native(&[0x01020304, 0]));
    assert_eq!(index_bytes(&[1, 0xdeadbeef]), native(&[1, 0xdeadbeef]));
    assert_eq!(radix_pass_bytes(3), native(&[3, 0, 0, 0]));
}

#[test]
fn labels_name_passes_kernels_and_buffers() {
    assert_eq!(Kernel::GsEdges.entry_point(), "gs_edges");
    assert_eq!(Kernel::CollRadixExclusiveBasesHeads.entry_point(), "coll_radix_exclusive_bases_heads");
    assert_eq!(Pass::DistanceGaussSeidel.label(), "cloth_pass_distance_gauss_seidel");
    assert_eq!(ClothBuffer::CollCellEndExclusive.label(), "cloth_coll_cell_end_exclusive");
    assert!(ClothBuffer::GsBatchDyn.is_uniform());
    assert!(!ClothBuffer::Tri.is_uniform());
}

#[test]
fn workgroups_cover_all_items() {
    for (n, width, groups) in [(0, 64, 0), (1, 64, 1), (64, 64, 1), (65, 64, 2), (300, 256, 2)] {
        assert_eq!(group_count(n, width), groups);
    }
}

#[test]
fn solvers_have_their_own_bindings_and_kernels() {
    assert_eq!(solver_bindings(Solver::GaussSeidel), vec![Binding::Cloth(0)]);
    assert_eq!(binding_slots(Binding::Cloth(0)), gs_slots());
    assert_eq!(solver_bindings(Solver::Jacobi).len(), 5);
    let c = config();
    assert_eq!(told_batch_count(Solver::GaussSeidel, &c), c.constraint_batch_count);
    assert_eq!(told_batch_count(Solver::Jacobi, &c), 0);
    assert!(c.shape(true).check_fits());
    let mut huge = c.shape(true);
    huge.num_particles = u32::MAX / 3;
    assert!(!huge.check_fits());
    for s in [Solver::GaussSeidel, Solver::Jacobi] {
        let all = solver_kernels(s);
        assert!(awaited_kernels(s).iter().all(|k| all.contains(k)));
        let frame = match s {
            Solver::GaussSeidel => gs_frame_commands(&c, true),
            Solver::Jacobi => jacobi_frame_commands(&c, true),
        };
        for x in frame {
            if let Command::SetPipeline(k) = x {
                assert!(all.contains(&k));
            }
        }
    }
}
