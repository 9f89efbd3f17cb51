//! A cloth mesh out of an OBJ text.

use vstd::prelude::*;

use crate::mesh_prep::braces::{link_pairs, links};
use crate::mesh_prep::cloth_mesh::{
    append_rows, constraint_count, finalize_cloth_mesh, lemma_linked, linked, mesh_values,
    ClothMeshData, Compliances,
};
use crate::mesh_prep::grid_fit::{
    axis_aligned_grid_skip_two_pairs, compares, coords, decides, fitted, fitted_in_some_order,
    off_all_lines, pairs_found,
};
use crate::mesh_prep::neighbors::Constraint;
use crate::mesh_prep::obj::{
    faces, head_of, points, read_statements, reads, statements, texture_points, Head, ObjTables,
};
use crate::mesh_prep::ops::{MeshModel, MeshOps};
use crate::mesh_prep::sort::within;
use crate::mesh_prep::text::{contents, is_white, parse_whole, split, split_at, whole_number, words};
use crate::mesh_prep::topology::{
    bend_candidate, edge_count, law_distinct_pairs, neighbors_of, stretch_candidate,
};
use crate::mesh_prep::weld::{
    corners, face_particles, fan, fans, law_distinct, lemma_fans_below, quad_diagonals, weld_faces,
    welded,
};

verus! {

/// The table entry that part `k` of a corner's word names, counted from one. Zero names the first
/// entry too.
pub open spec fn entry_of(word: Seq<char>, k: int) -> Option<int> {
    let parts = split(word, '/');
    if k < parts.len() {
        match whole_number(parts[k]) {
            Some(u) => Some(
                if u == 0 {
                    0
                } else {
                    u - 1
                },
            ),
            None => None,
        }
    } else {
        None
    }
}

/// Entry `k` of a table, `default` where there is none.
pub open spec fn entry<T>(table: Seq<T>, k: Option<int>, default: T) -> T {
    match k {
        Some(i) => if i < table.len() {
            table[i]
        } else {
            default
        },
        None => default,
    }
}

/// The position of a corner: the named one, else the first one where the name is no number.
pub open spec fn corner_position<S>(table: Seq<[S; 3]>, word: Seq<char>, zero: S) -> [S; 3] {
    let k = match entry_of(word, 0) {
        Some(i) => i,
        None => 0,
    };
    entry(table, Some(k), [zero, zero, zero])
}

pub open spec fn corner_uv<S>(table: Seq<[S; 2]>, word: Seq<char>, zero: S) -> [S; 2] {
    entry(table, entry_of(word, 1), [zero, zero])
}

pub open spec fn corner_normal<S>(table: Seq<[S; 3]>, word: Seq<char>, up: [S; 3]) -> [S; 3] {
    entry(table, entry_of(word, 2), up)
}

/// The particles of a text, each by the word of its corners.
pub open spec fn particle_words(text: Seq<char>) -> Seq<Seq<char>> {
    welded(faces(statements(text)))
}

pub open spec fn particle_positions<S>(
    number: spec_fn(Seq<char>) -> Option<S>,
    zero: S,
    text: Seq<char>,
) -> Seq<[S; 3]> {
    particle_words(text).map_values(
        |w: Seq<char>|
            corner_position(points(number, zero, Head::Position, statements(text)), w, zero),
    )
}

pub open spec fn particle_uvs<S>(
    number: spec_fn(Seq<char>) -> Option<S>,
    zero: S,
    text: Seq<char>,
) -> Seq<[S; 2]> {
    particle_words(text).map_values(
        |w: Seq<char>| corner_uv(texture_points(number, zero, statements(text)), w, zero),
    )
}

pub open spec fn particle_normals<S>(
    number: spec_fn(Seq<char>) -> Option<S>,
    zero: S,
    up: [S; 3],
    text: Seq<char>,
) -> Seq<[S; 3]> {
    particle_words(text).map_values(
        |w: Seq<char>| corner_normal(points(number, zero, Head::Normal, statements(text)), w, up),
    )
}

/// The triangles of a text.
pub open spec fn text_triangles(text: Seq<char>) -> Seq<u32> {
    fans(particle_words(text), faces(statements(text)))
}

/// The constraints of a text beside edges and hinges: those of the pairs `skips`, then the diagonals
/// of quads that no triangle has.
pub open spec fn text_braces<S>(
    m: MeshModel<S>,
    positions: Seq<[S; 3]>,
    text: Seq<char>,
    skips: Seq<(u32, u32)>,
    compliances: Compliances<S>,
) -> Seq<Constraint<S>> {
    linked(m, skips, positions, compliances.skip2) + linked(
        m,
        quad_diagonals(particle_words(text), faces(statements(text))),
        positions,
        compliances.cross_diag,
    )
}

/// The pairs that were found, none where nothing was.
pub open spec fn pairs_or_none(found: Option<Seq<(u32, u32)>>) -> Seq<(u32, u32)> {
    match found {
        Some(pairs) => pairs,
        None => seq![],
    }
}

/// `skips` are the pairs two apart in the rows and columns of the grid that the particles fill. There
/// are none where a coordinate is near to no line. The coordinates are looked at in their order, or
/// in some order where they have none.
pub open spec fn skips_right<S>(
    m: MeshModel<S>,
    positions: Seq<[S; 3]>,
    skips: Seq<(u32, u32)>,
) -> bool {
    &&& off_all_lines(positions, m.near) ==> skips.len() == 0
    &&& exists|found: Option<Seq<(u32, u32)>>|
        skips == pairs_or_none(found) && #[trigger] fitted_in_some_order(
            positions,
            m.far,
            m.near,
            found,
        )
    &&& within(coords(positions, 0), m.ordered) && within(coords(positions, 1), m.ordered) ==> skips
        == pairs_or_none(fitted(positions, m.rank, m.far, m.near))
}

/// The mesh of a text has the inverse masses and the constraints of its edges, hinges and diagonals,
/// and those of the pairs `skips`, which are two apart in a grid.
pub open spec fn braced_by<S, D, W, A, M, T, L, F, N>(
    mesh: ClothMeshData<S>,
    ops: MeshOps<S, D, W, A, M, T, L, F, N>,
    text: Seq<char>,
    compliances: Compliances<S>,
    skips: Seq<(u32, u32)>,
) -> bool where
    D: Fn([S; 3], [S; 3]) -> S,
    W: Fn([S; 3], [S; 3], [S; 3]) -> S,
    A: Fn(S, S) -> S,
    M: Fn(S, S) -> S,
    T: Fn(S, S) -> bool,
    L: Fn(S, S) -> bool,
    F: Fn(S, S) -> bool,
    N: Fn(S, S) -> bool,
 {
    forall|m: MeshModel<S>| #[trigger]
        ops.computes(m) ==> {
            &&& mesh_values(
                mesh,
                m,
                ops.zero,
                ops.lowest,
                text_braces(m, mesh.positions@, text, skips, compliances),
                compliances,
            )
            &&& skips_right(m, mesh.positions@, skips)
        }
}

/// The particles, the corners of the triangles and the ends of the constraints of a text can be
/// numbered. A grid has fewer than two pairs two apart for each particle.
pub open spec fn text_fits(text: Seq<char>) -> bool {
    let particles = particle_words(text).len();
    let diagonals = quad_diagonals(particle_words(text), faces(statements(text))).len();
    &&& particles < u32::MAX
    &&& text_triangles(text).len() <= u32::MAX
    &&& 2 * constraint_count(text_triangles(text), (diagonals + 2 * particles) as int) <= u32::MAX
}

fn read_entry(parts: &Vec<Vec<char>>, k: usize, Ghost(word): Ghost<Seq<char>>) -> (r: Option<usize>)
    requires
        contents(parts@) == split(word, '/'),
    ensures
        r is Some <==> entry_of(word, k as int) is Some,
        r is Some ==> r->0 == entry_of(word, k as int)->0,
{
    if k < parts.len() {
        assert(contents(parts@)[k as int] == parts@[k as int]@);
        match parse_whole(parts[k].as_slice()) {
            Some(u) => Some(
                if u == 0 {
                    0
                } else {
                    u - 1
                },
            ),
            None => None,
        }
    } else {
        None
    }
}

fn pick<T: Copy>(table: &Vec<T>, k: Option<usize>, default: T) -> (r: T)
    ensures
        r == entry(
            table@,
            match k {
                Some(i) => Some(i as int),
                None => None,
            },
            default,
        ),
{
    match k {
        Some(i) => if i < table.len() {
            table[i]
        } else {
            default
        },
        None => default,
    }
}

/// What the particles of the faces have.
struct Attributes<S> {
    positions: Vec<[S; 3]>,
    uvs: Vec<[S; 2]>,
    normals: Vec<[S; 3]>,
}

fn attributes<S: Copy>(
    tables: &ObjTables<S>,
    words: &Vec<Vec<char>>,
    zero: S,
    up: [S; 3],
) -> (r: Attributes<S>)
    ensures
        r.positions@ == contents(words@).map_values(
            |w: Seq<char>| corner_position(tables.positions@, w, zero),
        ),
        r.uvs@ == contents(words@).map_values(|w: Seq<char>| corner_uv(tables.uvs@, w, zero)),
        r.normals@ == contents(words@).map_values(
            |w: Seq<char>| corner_normal(tables.normals@, w, up),
        ),
{
    let ghost all = contents(words@);
    let ghost position = |w: Seq<char>| corner_position(tables.positions@, w, zero);
    let ghost uv = |w: Seq<char>| corner_uv(tables.uvs@, w, zero);
    let ghost normal = |w: Seq<char>| corner_normal(tables.normals@, w, up);
    let mut r = Attributes { positions: Vec::new(), uvs: Vec::new(), normals: Vec::new() };
    let mut k: usize = 0;
    while k < words.len()
        invariant
            k <= words@.len(),
            all == contents(words@),
            position == (|w: Seq<char>| corner_position(tables.positions@, w, zero)),
            uv == (|w: Seq<char>| corner_uv(tables.uvs@, w, zero)),
            normal == (|w: Seq<char>| corner_normal(tables.normals@, w, up)),
            r.positions@ == all.map_values(position).take(k as int),
            r.uvs@ == all.map_values(uv).take(k as int),
            r.normals@ == all.map_values(normal).take(k as int),
        decreases words@.len() - k,
    {
        let ghost word = all[k as int];
        assert(word == words@[k as int]@);
        let parts = split_at(words[k].as_slice(), '/');
        let vi = match read_entry(&parts, 0, Ghost(word)) {
            Some(i) => i,
            None => 0,
        };
        let uvi = read_entry(&parts, 1, Ghost(word));
        let ni = read_entry(&parts, 2, Ghost(word));
        r.positions.push(pick(&tables.positions, Some(vi), [zero, zero, zero]));
        r.uvs.push(pick(&tables.uvs, uvi, [zero, zero]));
        r.normals.push(pick(&tables.normals, ni, up));
        proof {
            assert(r.positions@ =~= all.map_values(position).take(k + 1));
            assert(r.uvs@ =~= all.map_values(uv).take(k + 1));
            assert(r.normals@ =~= all.map_values(normal).take(k + 1));
        }
        k = k + 1;
    }
    proof {
        assert(r.positions@ =~= all.map_values(position));
        assert(r.uvs@ =~= all.map_values(uv));
        assert(r.normals@ =~= all.map_values(normal));
    }
    r
}

proof fn lemma_few_words(s: Seq<char>)
    ensures
        2 * words(s).len() <= s.len() + 1,
        s.len() > 0 && is_white(s.last()) ==> 2 * words(s).len() <= s.len(),
    decreases s.len(),
{
    if s.len() > 0 {
        lemma_few_words(s.drop_last());
        if !is_white(s.last()) && s.len() >= 2 && !is_white(s[s.len() - 2]) {
            lemma_words_end(s.drop_last());
        }
    }
}

proof fn lemma_words_end(s: Seq<char>)
    requires
        s.len() > 0,
        !is_white(s.last()),
    ensures
        words(s).len() > 0,
{
}

/// The characters of all lines, with one more for the end of each.
spec fn line_lengths(lines: Seq<Seq<char>>) -> int
    decreases lines.len(),
{
    if lines.len() == 0 {
        0
    } else {
        line_lengths(lines.drop_last()) + lines.last().len() + 1
    }
}

proof fn lemma_line_lengths(s: Seq<char>, c: char)
    ensures
        split(s, c).len() > 0,
        line_lengths(split(s, c)) == s.len() + 1,
    decreases s.len(),
{
    reveal_with_fuel(line_lengths, 3);
    if s.len() == 0 {
        assert(split(s, c).drop_last() =~= seq![]);
        assert(split(s, c).last() =~= seq![]);
    } else {
        lemma_line_lengths(s.drop_last(), c);
        let before = split(s.drop_last(), c);
        if s.last() == c {
            assert(split(s, c).drop_last() =~= before);
        } else {
            assert(split(s, c).drop_last() =~= before.drop_last());
        }
    }
}

proof fn lemma_few_corners(lines: Seq<Seq<char>>)
    ensures
        2 * corners(faces(lines.map_values(|l: Seq<char>| words(l)))).len() <= line_lengths(lines),
        line_lengths(lines) >= 0,
    decreases lines.len(),
{
    let split_up = lines.map_values(|l: Seq<char>| words(l));
    if lines.len() > 0 {
        lemma_few_corners(lines.drop_last());
        let before = lines.drop_last().map_values(|l: Seq<char>| words(l));
        assert(split_up.drop_last() =~= before);
        assert(split_up.last() == words(lines.last()));
        lemma_few_words(lines.last());
        if head_of(split_up.last()) == Head::Face {
            let f = split_up.last().drop_first();
            assert(faces(split_up) == faces(before).push(f));
            assert(faces(split_up).drop_last() =~= faces(before));
        }
    }
}

proof fn lemma_few_triangles(ws: Seq<Seq<char>>, fs: Seq<Seq<Seq<char>>>)
    ensures
        fans(ws, fs).len() <= 3 * corners(fs).len(),
        quad_diagonals(ws, fs).len() <= corners(fs).len(),
    decreases fs.len(),
{
    if fs.len() > 0 {
        lemma_few_triangles(ws, fs.drop_last());
        if fs.last().len() >= 3 {
            assert(fan(face_particles(ws, fs.last())).len() <= 3 * fs.last().len());
        }
    }
}

/// The corners of the faces of a text are at most half as many as its characters.
proof fn lemma_text_bounds(text: Seq<char>)
    ensures
        2 * corners(faces(statements(text))).len() <= text.len() + 1,
        particle_words(text).len() <= corners(faces(statements(text))).len(),
        text_triangles(text).len() <= 3 * corners(faces(statements(text))).len(),
        quad_diagonals(particle_words(text), faces(statements(text))).len() <= corners(
            faces(statements(text)),
        ).len(),
{
    lemma_line_lengths(text, '\n');
    lemma_few_corners(split(text, '\n'));
    law_distinct(corners(faces(statements(text))));
    lemma_few_triangles(particle_words(text), faces(statements(text)));
}

proof fn lemma_few_constraints(indices: Seq<u32>, extras: int)
    ensures
        constraint_count(indices, extras) <= 2 * indices.len() + extras,
{
    let neighbors = neighbors_of(indices);
    law_distinct_pairs(|e: int| stretch_candidate(indices, neighbors, e), edge_count(indices));
    law_distinct_pairs(|e: int| bend_candidate(indices, neighbors, e), edge_count(indices));
}

/// Texts of a length up to a ninth of what can be numbered are fine.
pub proof fn law_short_texts_fit(text: Seq<char>)
    requires
        9 * (text.len() + 1) <= u32::MAX,
    ensures
        text_fits(text),
{
    let diagonals = quad_diagonals(particle_words(text), faces(statements(text))).len();
    lemma_text_bounds(text);
    lemma_few_constraints(
        text_triangles(text),
        (diagonals + 2 * particle_words(text).len()) as int,
    );
}

/// Reads a mesh: corners with the same word are welded, faces are split into fans, and the
/// diagonals of quads that no triangle has get a constraint. Where the particles fill a grid in the
/// XY plane, those two apart in a row or a column get one too.
///
/// `number` reads one number; where it gives none, or the word is missing, the number is zero. `up`
/// is the normal of a corner that names none.
pub fn parse_welded_obj<
    S: Copy,
    R: Fn(&[char]) -> Option<S>,
    D: Fn([S; 3], [S; 3]) -> S,
    W: Fn([S; 3], [S; 3], [S; 3]) -> S,
    A: Fn(S, S) -> S,
    M: Fn(S, S) -> S,
    T: Fn(S, S) -> bool,
    L: Fn(S, S) -> bool,
    F: Fn(S, S) -> bool,
    N: Fn(S, S) -> bool,
>(
    obj_text: &str,
    number: &R,
    up: [S; 3],
    compliances: Compliances<S>,
    ops: &MeshOps<S, D, W, A, M, T, L, F, N>,
) -> (mesh: ClothMeshData<S>)
    requires
        text_fits(obj_text@),
        ops.total(),
        forall|w: &[char]| #[trigger] number.requires((w,)),
    ensures
        mesh.wf(),
        mesh.num_particles == particle_words(obj_text@).len(),
        mesh.indices@ == text_triangles(obj_text@),
        forall|read: spec_fn(Seq<char>) -> Option<S>| #[trigger]
            reads(*number, read) ==> {
                &&& mesh.positions@ == particle_positions(read, ops.zero, obj_text@)
                &&& mesh.uvs@ == particle_uvs(read, ops.zero, obj_text@)
                &&& mesh.normals@ == particle_normals(read, ops.zero, up, obj_text@)
            },
        mesh.rest_positions@ == mesh.positions@,
        exists|skips: Seq<(u32, u32)>| #[trigger]
            braced_by(mesh, *ops, obj_text@, compliances, skips),
{
    let tables = read_statements(obj_text, ops.zero, number);
    let surface = weld_faces(&tables.faces);
    let parts = attributes(&tables, &surface.words, ops.zero, up);
    let ghost placed = parts.positions@;
    let ghost text = obj_text@;
    proof {
        assert(contents(surface.words@) == particle_words(text));
        law_distinct(corners(faces(statements(text))));
        lemma_fans_below(particle_words(text), faces(statements(text)));
        assert forall|read: spec_fn(Seq<char>) -> Option<S>| #[trigger] reads(
            *number,
            read,
        ) implies {
            &&& parts.positions@ == particle_positions(read, ops.zero, text)
            &&& parts.uvs@ == particle_uvs(read, ops.zero, text)
            &&& parts.normals@ == particle_normals(read, ops.zero, up, text)
        } by {
            assert(tables.holds(read, ops.zero, statements(text)));
            assert(parts.positions@ =~= particle_positions(read, ops.zero, text));
            assert(parts.uvs@ =~= particle_uvs(read, ops.zero, text));
            assert(parts.normals@ =~= particle_normals(read, ops.zero, up, text));
        }
    }
    let grid = axis_aligned_grid_skip_two_pairs(
        parts.positions.as_slice(),
        &ops.le,
        &ops.far,
        &ops.near,
    );
    let ghost found = pairs_found(grid);
    let skips: Vec<(u32, u32)> = match grid {
        Some(pairs) => pairs,
        None => Vec::new(),
    };
    let mut extras = link_pairs(
        skips.as_slice(),
        parts.positions.as_slice(),
        &ops.dist,
        compliances.skip2,
    );
    let ghost skip_rows = extras@;
    let cross_rows = link_pairs(
        surface.diagonals.as_slice(),
        parts.positions.as_slice(),
        &ops.dist,
        compliances.cross_diag,
    );
    append_rows(&mut extras, cross_rows.as_slice());
    proof {
        let n = placed.len();
        assert forall|e: int| 0 <= e < extras@.len() implies (#[trigger] extras@[e]).i < n
            && extras@[e].j < n by {
            if e < skip_rows.len() {
                assert(extras@[e] == skip_rows[e]);
                assert(links(skip_rows[e], skips@[e], placed, ops.dist, compliances.skip2));
            } else {
                let l = e - skip_rows.len();
                assert(extras@[e] == cross_rows@[l]);
                assert(links(
                    cross_rows@[l],
                    surface.diagonals@[l],
                    placed,
                    ops.dist,
                    compliances.cross_diag,
                ));
            }
        }
    }
    let ghost diagonals = surface.diagonals@;
    let mesh = finalize_cloth_mesh(
        parts.positions,
        parts.normals,
        parts.uvs,
        surface.indices,
        extras.as_slice(),
        compliances,
        ops,
    );
    proof {
        assert forall|m: MeshModel<S>| #[trigger] ops.computes(m) implies {
            &&& mesh_values(
                mesh,
                m,
                ops.zero,
                ops.lowest,
                text_braces(m, mesh.positions@, text, skips@, compliances),
                compliances,
            )
            &&& skips_right(m, mesh.positions@, skips@)
        } by {
            lemma_linked(m, skip_rows, skips@, placed, ops.dist, compliances.skip2);
            lemma_linked(m, cross_rows@, diagonals, placed, ops.dist, compliances.cross_diag);
            assert(extras@ =~= text_braces(m, placed, text, skips@, compliances));
            assert(decides(ops.far, m.far));
            assert(decides(ops.near, m.near));
            assert(fitted_in_some_order(placed, m.far, m.near, found));
            assert(skips@ =~= pairs_or_none(found));
            if within(coords(placed, 0), m.ordered) && within(coords(placed, 1), m.ordered) {
                assert(compares(
                    ops.le,
                    ops.far,
                    ops.near,
                    placed,
                    m.rank,
                    m.ordered,
                    m.far,
                    m.near,
                ));
            }
        }
        assert(braced_by(mesh, *ops, text, compliances, skips@));
    }
    mesh
}

} // verus!
