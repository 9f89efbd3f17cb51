use bevy_softbody::mesh_prep::batches::partition_constraints_for_gs_batches;
use bevy_softbody::mesh_prep::braces::{
    grid_quad_cross_pairs, grid_skip_two_pairs, grid_triangles, link_pairs,
};
use bevy_softbody::mesh_prep::grid_fit::{axis_aligned_grid_skip_two_pairs, dedup_sorted_coords};
use bevy_softbody::mesh_prep::neighbors::{neighbor_lists, Constraint};
use bevy_softbody::mesh_prep::obj::read_statements;
use bevy_softbody::mesh_prep::sort::stable_sort;
use bevy_softbody::mesh_prep::text::{parse_whole, split_at, words_of};
use bevy_softbody::mesh_prep::topology::{bending_pairs, unique_edges, NO_NEIGHBOR};
use bevy_softbody::mesh_prep::weld::weld_faces;
use bevy_softbody::mesh_prep::{
    find_tri_neighbors, grid_cloth_hanging, parse_welded_obj, particle_ids, ClothMeshData, Compliances, MeshOps,
};
use glam::Vec3;
use std::collections::HashSet;

type P3 = [f32; 3];
type F2 = fn(f32, f32) -> f32;
type B2 = fn(f32, f32) -> bool;
type MeshFormulas = MeshOps<f32, fn(P3, P3) -> f32, fn(P3, P3, P3) -> f32, F2, F2, B2, B2, B2, B2>;

const STRETCH: f32 = 2e-8;
const BEND: f32 = 3.8;
const SKIP2: f32 = 2.5e-8;
const CROSS: f32 = 6e-9;

fn le(a: f32, b: f32) -> bool {
    !(a > b)
}

fn far(a: f32, b: f32) -> bool {
    (a - b).abs() > 2e-4
}

fn near(line: f32, x: f32) -> bool {
    (line - x).abs() <= 2e-4
}

fn dist(a: P3, b: P3) -> f32 {
    (Vec3::from(a) - Vec3::from(b)).length()
}

fn mesh_formulas() -> MeshFormulas {
    MeshOps {
        zero: 0.0,
        lowest: f32::NEG_INFINITY,
        dist,
        mass_share: |a, b, c| {
            let area = 0.5 * (Vec3::from(b) - Vec3::from(a)).cross(Vec3::from(c) - Vec3::from(a)).length();
            if area > 0.0 {
                1.0 / area / 3.0
            } else {
                0.0
            }
        },
        plus: |a, b| a + b,
        larger: f32::max,
        at_top: |y, top| y >= top - 1e-5,
        le,
        far,
        near,
    }
}

fn compliances() -> Compliances<f32> {
    Compliances { stretch: STRETCH, bend: BEND, skip2: SKIP2, cross_diag: CROSS }
}

fn hanging(quad_cols: u32, quad_rows: u32, cell: f32) -> ClothMeshData<f32> {
    let x0 = -0.5 * (quad_cols as f32 * cell);
    grid_cloth_hanging(
        quad_cols,
        quad_rows,
        &|ix: u32, iy: u32| [x0 + ix as f32 * cell, iy as f32 * cell, 0.0],
        &|ix: u32, iy: u32| [ix as f32 / quad_cols as f32, iy as f32 / quad_rows as f32],
        [0.0, 0.0, 1.0],
        compliances(),
        &mesh_formulas(),
    )
}

fn number(w: &[char]) -> Option<f32> {
    w.iter().collect::<String>().parse::<f32>().ok()
}

fn parse(text: &str) -> ClothMeshData<f32> {
    parse_welded_obj(text, &number, [0.0, 1.0, 0.0], compliances(), &mesh_formulas())
}

fn rows_of(m: &ClothMeshData<f32>) -> Vec<(u32, u32)> {
    let mut r: Vec<(u32, u32)> = (0..m.constraint_i.len())
        .map(|k| (m.constraint_i[k], m.constraint_j[k]))
        .collect();
    r.sort();
    r
}

fn batches_are_apart(m: &ClothMeshData<f32>) {
    assert_eq!(m.constraint_batch_count as usize + 1, m.constraint_batch_offsets.len());
    assert_eq!(m.constraint_batch_offsets[0], 0);
    assert_eq!(*m.constraint_batch_offsets.last().unwrap(), m.num_distance_constraints);
    for w in m.constraint_batch_offsets.windows(2) {
        assert!(w[0] < w[1]);
        let mut seen = HashSet::new();
        for e in w[0] as usize..w[1] as usize {
            assert!(seen.insert(m.constraint_i[e]));
            if m.constraint_j[e] != m.constraint_i[e] {
                assert!(seen.insert(m.constraint_j[e]));
            }
        }
    }
}

fn chars(s: &str) -> Vec<char> {
    s.chars().collect()
}

#[test]
fn cloth_neighbor_and_tri_indices_in_range() {
    let cloth = hanging(12, 10, 0.05);
    let n = cloth.num_particles;
    for &j in &cloth.neighbor_other {
        assert!(
            j < n,
            "neighbor index {} out of range (num_particles={})",
            j,
            n
        );
    }
    for &t in &cloth.indices {
        assert!(
            t < n,
            "triangle vertex index {} out of range (num_particles={})",
            t,
            n
        );
    }
}

#[test]
fn cloth_neighbor_slices_match_constraints() {
    let cloth = hanging(10, 8, 0.05);
    let n = cloth.num_particles as usize;
    let mut edges: HashSet<(u32, u32)> = HashSet::new();
    for k in 0..cloth.constraint_i.len() {
        let i = cloth.constraint_i[k];
        let j = cloth.constraint_j[k];
        let a = i.min(j);
        let b = i.max(j);
        edges.insert((a, b));
    }
    for i in 0..n {
        let s = cloth.neighbor_offsets[i] as usize;
        let e = cloth.neighbor_offsets[i + 1] as usize;
        for k in s..e {
            let j = cloth.neighbor_other[k];
            let a = (i as u32).min(j);
            let b = (i as u32).max(j);
            assert!(
                edges.contains(&(a, b)),
                "particle {i} neighbor slice lists j={j} but no constraint (a,b)=({a},{b})",
            );
        }
    }
}

#[test]
fn one_quad_has_all_its_constraints() {
    let m = hanging(1, 1, 1.0);
    assert_eq!(m.num_particles, 4);
    assert_eq!(m.indices, vec![0, 1, 2, 1, 3, 2]);
    assert_eq!(m.positions[3], [0.5, 1.0, 0.0]);
    assert_eq!(m.uvs[3], [1.0, 1.0]);
    assert_eq!(m.normals, vec![[0.0, 0.0, 1.0]; 4]);
    // Five edges, one hinge between 0 and 3, and one diagonal between the same two.
    assert_eq!(m.num_distance_constraints, 7);
    assert_eq!(
        rows_of(&m),
        vec![(0, 1), (0, 2), (0, 3), (0, 3), (1, 2), (1, 3), (2, 3)]
    );
    assert_eq!(m.tri_edge_neighbors, vec![NO_NEIGHBOR, 5, NO_NEIGHBOR, NO_NEIGHBOR, NO_NEIGHBOR, 1]);
    batches_are_apart(&m);
}

#[test]
fn the_top_row_is_pinned_and_masses_add_up() {
    let m = hanging(1, 1, 1.0);
    // Each triangle of area one half gives two thirds to each of its corners.
    assert!((m.inv_mass[0] - 2.0 / 3.0).abs() < 1e-6);
    assert!((m.inv_mass[1] - 4.0 / 3.0).abs() < 1e-6);
    assert_eq!(&m.inv_mass[2..], &[0.0, 0.0]);
    let big = hanging(5, 4, 0.1);
    for i in 0..30 {
        assert_eq!(big.inv_mass[i] == 0.0, i >= 24);
    }
}

#[test]
fn batches_of_a_grid_are_apart() {
    for (c, r) in [(1, 1), (2, 5), (7, 3), (12, 10)] {
        batches_are_apart(&hanging(c, r, 0.05));
    }
}

#[test]
fn compliances_follow_what_constraints_are_for() {
    let m = hanging(3, 3, 0.1);
    let count = |c: f32| m.constraint_compliance.iter().filter(|&&x| x == c).count();
    // 4 * 3 edges along either axis and 9 diagonals; 2 * 4 pairs two apart along either axis.
    assert_eq!(count(STRETCH), 33);
    assert_eq!(count(SKIP2), 16);
    assert_eq!(count(CROSS), 9);
    // One hinge for each edge inside: 9 diagonals, 6 along either axis.
    assert_eq!(count(BEND), 21);
    for k in 0..m.constraint_i.len() {
        let (i, j) = (m.constraint_i[k] as usize, m.constraint_j[k] as usize);
        assert_eq!(m.constraint_rest_len[k], dist(m.positions[i], m.positions[j]));
    }
}

#[test]
fn neighbors_pair_up_across_an_edge() {
    assert_eq!(
        find_tri_neighbors(&[0, 1, 2, 2, 1, 3]),
        vec![NO_NEIGHBOR, 3, NO_NEIGHBOR, 1, NO_NEIGHBOR, NO_NEIGHBOR]
    );
    assert_eq!(find_tri_neighbors(&[]), Vec::<u32>::new());
    // Of three edges between the same ends each has the next one, the last one that before it.
    assert_eq!(
        find_tri_neighbors(&[0, 1, 2, 0, 1, 3, 0, 1, 4]),
        vec![
            3,
            NO_NEIGHBOR,
            NO_NEIGHBOR,
            6,
            NO_NEIGHBOR,
            NO_NEIGHBOR,
            3,
            NO_NEIGHBOR,
            NO_NEIGHBOR
        ]
    );
}

#[test]
fn edges_and_hinges_are_found_once() {
    let ix = [0, 1, 2, 2, 1, 3];
    let nb = find_tri_neighbors(&ix);
    assert_eq!(unique_edges(&ix, &nb), vec![(0, 1), (1, 2), (0, 2), (1, 3), (2, 3)]);
    assert_eq!(bending_pairs(&ix, &nb), vec![(0, 3)]);
}

#[test]
fn braces_of_a_grid() {
    assert_eq!(
        grid_skip_two_pairs(3, 3),
        vec![(0, 2), (3, 5), (6, 8), (0, 6), (1, 7), (2, 8)]
    );
    assert_eq!(grid_skip_two_pairs(2, 2), vec![]);
    assert_eq!(grid_quad_cross_pairs(2, 1), vec![(0, 4), (1, 5)]);
    assert_eq!(grid_triangles(1, 1), vec![0, 1, 2, 1, 3, 2]);
}

#[test]
fn linked_pairs_are_ordered_and_measured() {
    let rows = link_pairs(&[(2, 0)], &[[0.0, 0.0, 0.0], [9.0, 0.0, 0.0], [3.0, 4.0, 0.0]], &dist, 7.0);
    assert_eq!(rows.len(), 1);
    assert_eq!((rows[0].i, rows[0].j), (0, 2));
    assert_eq!((rows[0].rest, rows[0].compliance), (5.0, 7.0));
}

fn rows(pairs: &[(u32, u32)]) -> Vec<Constraint<u32>> {
    pairs.iter().map(|&(i, j)| Constraint { i, j, rest: 10 * i + j, compliance: 1 }).collect()
}

#[test]
fn high_degrees_are_visited_first() {
    // Particle 0 has degree three, so its constraints are visited first.
    let b = partition_constraints_for_gs_batches(&rows(&[(1, 2), (0, 1), (0, 2), (0, 3)]), 4);
    assert_eq!(b.order, vec![1, 2, 3, 0]);
    assert_eq!(b.offsets, vec![0, 1, 2, 4]);
    let none = partition_constraints_for_gs_batches(&rows(&[]), 4);
    assert_eq!(none.offsets, vec![0]);
}

#[test]
fn neighbor_slices_are_contiguous() {
    let n = neighbor_lists(4, &rows(&[(0, 1), (2, 3), (1, 2)]), 0);
    assert_eq!(n.offsets, vec![0, 1, 3, 5, 6]);
    assert_eq!(n.other, vec![1, 0, 2, 3, 1, 2]);
    assert_eq!(n.constraint_id, vec![0, 0, 2, 1, 2, 1]);
    assert_eq!(n.rest_len, vec![1, 1, 12, 23, 12, 23]);
}

#[test]
fn sorts_are_stable() {
    let v = [(3, 'a'), (1, 'b'), (3, 'c'), (1, 'd'), (2, 'e')];
    let r = stable_sort(&v, &|x: (i32, char), y: (i32, char)| x.0 <= y.0);
    assert_eq!(r, vec![(1, 'b'), (1, 'd'), (2, 'e'), (3, 'a'), (3, 'c')]);
}

#[test]
fn coordinates_merge_into_lines() {
    let v = [1.0, 0.0, 1.0001, 0.5, 0.00015, -0.00001];
    assert_eq!(dedup_sorted_coords(&v, &le, &far), vec![-0.00001, 0.5, 1.0]);
}

fn shuffled_grid() -> Vec<P3> {
    let mut p = vec![];
    for (x, y) in [
        (2, 2),
        (0, 0),
        (1, 0),
        (2, 0),
        (0, 1),
        (1, 1),
        (2, 1),
        (0, 2),
        (1, 2),
    ] {
        p.push([x as f32, y as f32, 0.25 * x as f32]);
    }
    p
}

#[test]
fn grids_are_recognized_in_any_order() {
    let p = shuffled_grid();
    let pairs = axis_aligned_grid_skip_two_pairs(&p, &le, &far, &near).unwrap();
    // Rows, then columns, by the place in the grid.
    assert_eq!(pairs, vec![(1, 3), (4, 6), (7, 0), (1, 7), (2, 8), (3, 0)]);
}

#[test]
fn grids_in_order_are_braced_as_grids() {
    let mut p = vec![];
    for y in 0..4 {
        for x in 0..5 {
            p.push([0.1 * x as f32, 0.2 * y as f32, 0.0]);
        }
    }
    let pairs = axis_aligned_grid_skip_two_pairs(&p, &le, &far, &near).unwrap();
    assert_eq!(pairs, grid_skip_two_pairs(5, 4));
}

#[test]
fn irregular_points_are_no_grid() {
    let check = |p: &[P3]| axis_aligned_grid_skip_two_pairs(p, &le, &far, &near).is_none();
    assert!(check(&[]));
    // Two by two is too few.
    assert!(check(&[[0.0, 0.0, 0.0], [1.0, 0.0, 0.0], [0.0, 1.0, 0.0], [1.0, 1.0, 0.0]]));
    // A point missing.
    assert!(check(&shuffled_grid()[1..]));
    // Two points at one place.
    let mut p = shuffled_grid();
    p[0] = p[1];
    assert!(check(&p));
}

#[test]
fn texts_split_into_words_and_parts() {
    let w: Vec<String> = words_of(&chars("  v\t1.0 \u{3000}2 \r"))
        .iter()
        .map(|w| w.iter().collect())
        .collect();
    assert_eq!(w, vec!["v", "1.0", "2"]);
    let p: Vec<String> =
        split_at(&chars("7//9"), '/').iter().map(|w| w.iter().collect()).collect();
    assert_eq!(p, vec!["7", "", "9"]);
    assert_eq!(split_at(&[], '/').len(), 1);
}

#[test]
fn whole_numbers_are_read() {
    for (text, value) in [
        ("0", Some(0)),
        ("+12", Some(12)),
        ("007", Some(7)),
        ("", None),
        ("+", None),
        ("-1", None),
        ("1x", None),
        ("18446744073709551615", Some(usize::MAX)),
        ("18446744073709551616", None),
    ] {
        assert_eq!(parse_whole(&chars(text)), value, "{text}");
        assert_eq!(text.parse::<usize>().ok(), value);
    }
}

#[test]
fn statements_fill_the_tables() {
    let t = read_statements(
        "# v 9 9 9\r\nv 1 2 3\n\n  v 4 x\nvt 0.5\nvn 0 0 1\nvp 1\nf 1 2 3\nf\n",
        0.0,
        &number,
    );
    assert_eq!(t.positions, vec![[1.0, 2.0, 3.0], [4.0, 0.0, 0.0]]);
    assert_eq!(t.uvs, vec![[0.5, 0.0]]);
    assert_eq!(t.normals, vec![[0.0, 0.0, 1.0]]);
    assert_eq!(t.faces.len(), 2);
    assert_eq!(t.faces[0].len(), 3);
}

#[test]
fn corners_weld_by_their_words() {
    let face = |s: &str| words_of(&chars(s));
    let w = weld_faces(&vec![
        face("a b"),
        face("c a b"),
        face("a b d e"),
        face("a b c d e"),
    ]);
    let words: Vec<String> = w.words.iter().map(|w| w.iter().collect()).collect();
    assert_eq!(words, vec!["c", "a", "b", "d", "e"]);
    assert_eq!(
        w.indices,
        vec![0, 1, 2, 1, 2, 3, 1, 3, 4, 1, 2, 0, 1, 0, 3, 1, 3, 4]
    );
    assert_eq!(w.diagonals, vec![(2, 4)]);
}

#[test]
fn meshes_are_read() {
    let m = parse("v 0 0 0\nv 1 0 0\nv 1 1 0\nv 0 1 0\nvt 0.25 0.5\nvn 0 0 1\nf 1/1/1 2//1 3 4/9/9\n");
    assert_eq!(m.num_particles, 4);
    assert_eq!(m.indices, vec![0, 1, 2, 0, 2, 3]);
    assert_eq!(m.positions[2], [1.0, 1.0, 0.0]);
    assert_eq!(m.uvs, vec![[0.25, 0.5], [0.0; 2], [0.0; 2], [0.0; 2]]);
    assert_eq!(m.normals, vec![[0.0, 0.0, 1.0], [0.0, 0.0, 1.0], [0.0, 1.0, 0.0], [0.0, 1.0, 0.0]]);
    // Five edges, the hinge between the second and the fourth corner, and the diagonal there.
    assert_eq!(rows_of(&m), vec![(0, 1), (0, 2), (0, 3), (1, 2), (1, 3), (1, 3), (2, 3)]);
    assert_eq!(m.inv_mass[2], 0.0);
    assert_eq!(m.inv_mass[3], 0.0);
}

#[test]
fn unreadable_indices_name_the_first_vertex() {
    let m = parse("v 5 6 7\nv 1 1 1\nf x 0 2 77\n");
    assert_eq!(
        m.positions,
        vec![[5.0, 6.0, 7.0], [5.0, 6.0, 7.0], [1.0, 1.0, 1.0], [0.0, 0.0, 0.0]]
    );
}

#[test]
fn grids_in_a_text_get_braces() {
    let mut text = String::new();
    for y in 0..3 {
        for x in 0..3 {
            text.push_str(&format!("v {x} {y} 0\n"));
        }
    }
    for y in 0..2 {
        for x in 0..2 {
            let a = 3 * y + x + 1;
            text.push_str(&format!("f {} {} {} {}\n", a, a + 1, a + 4, a + 3));
        }
    }
    let m = parse(&text);
    assert_eq!(m.num_particles, 9);
    let skips = m.constraint_compliance.iter().filter(|&&c| c == SKIP2).count();
    let diagonals = m.constraint_compliance.iter().filter(|&&c| c == CROSS).count();
    assert_eq!((skips, diagonals), (6, 4));
    batches_are_apart(&m);
}

#[test]
fn empty_texts_are_empty_meshes() {
    let m = parse("");
    assert_eq!(m.num_particles, 0);
    assert_eq!(m.num_distance_constraints, 0);
    assert_eq!(m.neighbor_offsets, vec![0]);
    assert_eq!(m.constraint_batch_offsets, vec![0]);
}

#[test]
fn particles_are_numbered() {
    assert_eq!(particle_ids(3, 0.5, &|i: u32| i as f32), vec![[0.0, 0.5], [1.0, 0.5], [2.0, 0.5]]);
    assert!(particle_ids(0, 0.0, &|i: u32| i as f32).is_empty());
}

#[test]
fn meshes_rest_where_they_are() {
    let m = parse("v 0 0 0\nv 1 0 0\nv 0 1 0\nf 1 2 3\n");
    assert_eq!(m.rest_positions, m.positions);
    assert!(m.has_sliced_neighbors());
}

#[test]
fn coordinates_that_are_no_numbers_keep_the_constraints() {
    let m = parse("v 0 0 0\nv nan 0 0\nv 0 1 0\nv 1 1 0\nf 1 2 4 3\n");
    let mut rows = rows_of(&m);
    rows.sort();
    // Five edges, the hinge and the diagonal, which is no edge.
    assert_eq!(rows.len(), 7);
    assert_eq!(m.num_particles, 4);
    assert!(m.constraint_rest_len.iter().any(|l| l.is_nan()));
}

#[test]
fn coordinates_that_are_no_numbers_are_on_no_grid() {
    // A full grid but for one coordinate, which is no number.
    let mut points = shuffled_grid();
    assert!(axis_aligned_grid_skip_two_pairs(&points, &le, &far, &near).is_some());
    points[4][1] = f32::NAN;
    assert!(axis_aligned_grid_skip_two_pairs(&points, &le, &far, &near).is_none());
}
