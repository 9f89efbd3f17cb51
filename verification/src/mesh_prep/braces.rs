//! Pairs of particles of a regular grid that get a constraint beside the triangle edges.
//!
//! The particles of a grid are numbered row by row.

use vstd::arithmetic::div_mod::lemma_fundamental_div_mod;
use vstd::prelude::*;

use crate::mesh_prep::neighbors::Constraint;
use crate::mesh_prep::topology::ordered;

verus! {

pub open spec fn minus_two(n: int) -> int {
    if n >= 2 {
        n - 2
    } else {
        0
    }
}

/// The pairs two apart in a row, row by row.
pub open spec fn row_skips(cols: int, rows: int) -> Seq<(u32, u32)> {
    let w = minus_two(cols);
    Seq::new(
        (rows * w) as nat,
        |k: int| (((k / w) * cols + k % w) as u32, ((k / w) * cols + k % w + 2) as u32),
    )
}

/// The pairs two apart in a column, in the order of their lower particles.
pub open spec fn column_skips(cols: int, rows: int) -> Seq<(u32, u32)> {
    Seq::new((minus_two(rows) * cols) as nat, |k: int| (k as u32, (k + 2 * cols) as u32))
}

/// All pairs two apart in a row or a column.
pub open spec fn skip_two_pairs(cols: int, rows: int) -> Seq<(u32, u32)> {
    row_skips(cols, rows) + column_skips(cols, rows)
}

/// The first corner of quad `q`, the one with the smallest number.
pub open spec fn quad_corner(quad_cols: int, q: int) -> int {
    (q / quad_cols) * (quad_cols + 1) + q % quad_cols
}

/// The corners of each quad that its triangles do not connect.
pub open spec fn cross_pairs(quad_cols: int, quad_rows: int) -> Seq<(u32, u32)> {
    Seq::new(
        (quad_cols * quad_rows) as nat,
        |q: int|
            (
                quad_corner(quad_cols, q) as u32,
                (quad_corner(quad_cols, q) + quad_cols + 2) as u32,
            ),
    )
}

/// Corner `c` of the six that the two triangles of a quad have, from the quad's first corner.
pub open spec fn quad_triangle_corner(quad_cols: int, i0: int, c: int) -> int {
    let i1 = i0 + 1;
    let i2 = i0 + quad_cols + 1;
    let i3 = i2 + 1;
    if c == 0 {
        i0
    } else if c == 1 || c == 3 {
        i1
    } else if c == 4 {
        i3
    } else {
        i2
    }
}

/// The triangles of a grid: two for each quad.
pub open spec fn grid_indices(quad_cols: int, quad_rows: int) -> Seq<u32> {
    Seq::new(
        (6 * (quad_cols * quad_rows)) as nat,
        |k: int| quad_triangle_corner(quad_cols, quad_corner(quad_cols, k / 6), k % 6) as u32,
    )
}

proof fn lemma_row_skip(cols: int, rows: int, k: int)
    requires
        0 <= cols,
        0 <= rows,
        0 <= k < rows * minus_two(cols),
    ensures
        0 <= (k / minus_two(cols)) * cols,
        0 <= k % minus_two(cols),
        (k / minus_two(cols)) * cols + k % minus_two(cols) + 2 < cols * rows,
{
    let w = minus_two(cols);
    assert(w > 0) by (nonlinear_arith)
        requires
            0 <= w,
            0 <= k < rows * w,
    ;
    lemma_fundamental_div_mod(k, w);
    let q = k / w;
    let m = k % w;
    assert(0 <= q < rows) by (nonlinear_arith)
        requires
            k == w * q + m,
            0 <= m < w,
            0 <= k < rows * w,
    ;
    assert(0 <= q * cols && q * cols + m + 2 < cols * rows) by (nonlinear_arith)
        requires
            0 <= q < rows,
            0 <= m < w,
            w == cols - 2,
    ;
}

/// The corners of a quad are particles of the grid.
pub proof fn lemma_quad_corner(quad_cols: int, quad_rows: int, q: int)
    requires
        0 <= quad_cols,
        0 <= quad_rows,
        0 <= q < quad_cols * quad_rows,
    ensures
        0 < quad_cols,
        0 <= q % quad_cols < quad_cols,
        0 <= q / quad_cols < quad_rows,
        0 <= (q / quad_cols) * (quad_cols + 1),
        quad_corner(quad_cols, q) + quad_cols + 2 < (quad_cols + 1) * (quad_rows + 1),
{
    let w = quad_cols;
    assert(w > 0) by (nonlinear_arith)
        requires
            0 <= w,
            0 <= q < w * quad_rows,
    ;
    lemma_fundamental_div_mod(q, w);
    let d = q / w;
    let m = q % w;
    assert(0 <= d < quad_rows) by (nonlinear_arith)
        requires
            q == w * d + m,
            0 <= m < w,
            0 <= q < w * quad_rows,
    ;
    assert(0 <= d * (w + 1) && d * (w + 1) + m + w + 2 < (w + 1) * (quad_rows + 1))
        by (nonlinear_arith)
        requires
            0 <= d < quad_rows,
            0 <= m < w,
    ;
}

/// Every pair of a grid's braces and every corner of its triangles is a particle of the grid.
pub proof fn law_grid_pairs_below(cols: int, rows: int)
    requires
        1 <= cols,
        1 <= rows,
        cols * rows <= u32::MAX,
    ensures
        forall|k: int|
            0 <= k < skip_two_pairs(cols, rows).len() ==> (#[trigger] skip_two_pairs(cols, rows)[k]).0
                < skip_two_pairs(cols, rows)[k].1 < cols * rows,
        forall|k: int|
            0 <= k < cross_pairs(cols - 1, rows - 1).len() ==> (#[trigger] cross_pairs(
                cols - 1,
                rows - 1,
            )[k]).0 < cross_pairs(cols - 1, rows - 1)[k].1 < cols * rows,
        forall|k: int|
            0 <= k < grid_indices(cols - 1, rows - 1).len() ==> #[trigger] grid_indices(
                cols - 1,
                rows - 1,
            )[k] < cols * rows,
{
    let w = minus_two(cols);
    let h = minus_two(rows);
    assert(rows * w >= 0 && h * cols >= 0) by (nonlinear_arith)
        requires
            rows >= 1,
            cols >= 1,
            w >= 0,
            h >= 0,
    ;
    assert forall|k: int| 0 <= k < skip_two_pairs(cols, rows).len() implies (
    #[trigger] skip_two_pairs(cols, rows)[k]).0 < skip_two_pairs(cols, rows)[k].1 < cols
        * rows by {
        let nrow = row_skips(cols, rows).len();
        if k < nrow {
            lemma_row_skip(cols, rows, k);
            assert(skip_two_pairs(cols, rows)[k] == row_skips(cols, rows)[k]);
        } else {
            let l = k - nrow;
            assert(skip_two_pairs(cols, rows)[k] == column_skips(cols, rows)[l]);
            assert(l + 2 * cols < cols * rows) by (nonlinear_arith)
                requires
                    0 <= l < h * cols,
                    h == minus_two(rows),
                    h >= 1 ==> h == rows - 2,
                    h == 0 ==> h * cols == 0,
                    h >= 0,
            ;
        }
    }
    assert forall|k: int| 0 <= k < cross_pairs(cols - 1, rows - 1).len() implies (
    #[trigger] cross_pairs(cols - 1, rows - 1)[k]).0 < cross_pairs(cols - 1, rows - 1)[k].1 < cols
        * rows by {
        assert((cols - 1) * (rows - 1) >= 0) by (nonlinear_arith)
            requires
                rows >= 1,
                cols >= 1,
        ;
        lemma_quad_corner(cols - 1, rows - 1, k);
    }
    assert forall|k: int| 0 <= k < grid_indices(cols - 1, rows - 1).len() implies
        #[trigger] grid_indices(cols - 1, rows - 1)[k] < cols * rows by {
        assert((cols - 1) * (rows - 1) >= 0) by (nonlinear_arith)
            requires
                rows >= 1,
                cols >= 1,
        ;
        lemma_quad_corner(cols - 1, rows - 1, k / 6);
    }
}

/// All pairs two apart in a row or a column of a grid.
pub fn grid_skip_two_pairs(cols: u32, rows: u32) -> (out: Vec<(u32, u32)>)
    requires
        cols * rows <= u32::MAX,
    ensures
        out@ == skip_two_pairs(cols as int, rows as int),
{
    let w: u32 = if cols >= 2 {
        cols - 2
    } else {
        0
    };
    let h: u32 = if rows >= 2 {
        rows - 2
    } else {
        0
    };
    let mut out: Vec<(u32, u32)> = Vec::new();
    assert(0 <= rows * w <= cols * rows && 0 <= h * cols <= cols * rows) by (nonlinear_arith)
        requires
            0 <= w <= cols,
            0 <= h <= rows,
            0 <= rows,
            0 <= cols,
    ;
    let n1: u32 = rows * w;
    let mut k: u32 = 0;
    while k < n1
        invariant
            k <= n1,
            n1 == rows * w,
            w == minus_two(cols as int),
            cols * rows <= u32::MAX,
            out@ == row_skips(cols as int, rows as int).take(k as int),
        decreases n1 - k,
    {
        proof {
            lemma_row_skip(cols as int, rows as int, k as int);
        }
        let i: u32 = (k / w) * cols + k % w;
        out.push((i, i + 2));
        assert(out@ =~= row_skips(cols as int, rows as int).take(k + 1));
        k = k + 1;
    }
    assert(out@ =~= row_skips(cols as int, rows as int));
    let n2: u32 = h * cols;
    let mut k: u32 = 0;
    while k < n2
        invariant
            k <= n2,
            n2 == h * cols,
            h == minus_two(rows as int),
            cols * rows <= u32::MAX,
            out@ == row_skips(cols as int, rows as int) + column_skips(
                cols as int,
                rows as int,
            ).take(k as int),
        decreases n2 - k,
    {
        assert(k + 2 * cols <= cols * rows) by (nonlinear_arith)
            requires
                0 <= k < h * cols,
                h >= 1 ==> h == rows - 2,
                h == 0 ==> h * cols == 0,
        ;
        out.push((k, k + 2 * cols));
        assert(out@ =~= row_skips(cols as int, rows as int) + column_skips(
            cols as int,
            rows as int,
        ).take(k + 1));
        k = k + 1;
    }
    assert(out@ =~= skip_two_pairs(cols as int, rows as int));
    out
}

/// The corners of each quad that its triangles do not connect.
pub fn grid_quad_cross_pairs(quad_cols: u32, quad_rows: u32) -> (out: Vec<(u32, u32)>)
    requires
        (quad_cols + 1) * (quad_rows + 1) <= u32::MAX,
    ensures
        out@ == cross_pairs(quad_cols as int, quad_rows as int),
{
    assert(0 <= quad_cols * quad_rows <= u32::MAX && quad_cols < u32::MAX) by (nonlinear_arith)
        requires
            0 <= quad_cols,
            0 <= quad_rows,
            (quad_cols + 1) * (quad_rows + 1) <= u32::MAX,
    ;
    let n: u32 = quad_cols * quad_rows;
    let mut out: Vec<(u32, u32)> = Vec::new();
    let mut q: u32 = 0;
    while q < n
        invariant
            q <= n,
            n == quad_cols * quad_rows,
            quad_cols < u32::MAX,
            (quad_cols + 1) * (quad_rows + 1) <= u32::MAX,
            out@ == cross_pairs(quad_cols as int, quad_rows as int).take(q as int),
        decreases n - q,
    {
        proof {
            lemma_quad_corner(quad_cols as int, quad_rows as int, q as int);
        }
        let i0: u32 = (q / quad_cols) * (quad_cols + 1) + q % quad_cols;
        out.push((i0, i0 + quad_cols + 2));
        assert(out@ =~= cross_pairs(quad_cols as int, quad_rows as int).take(q + 1));
        q = q + 1;
    }
    assert(out@ =~= cross_pairs(quad_cols as int, quad_rows as int));
    out
}

/// The triangles of a grid of quads.
pub fn grid_triangles(quad_cols: u32, quad_rows: u32) -> (out: Vec<u32>)
    requires
        (quad_cols + 1) * (quad_rows + 1) <= u32::MAX,
        6 * (quad_cols * quad_rows) <= u32::MAX,
    ensures
        out@ == grid_indices(quad_cols as int, quad_rows as int),
{
    assert(0 <= quad_cols * quad_rows && quad_cols < u32::MAX) by (nonlinear_arith)
        requires
            0 <= quad_cols,
            0 <= quad_rows,
            (quad_cols + 1) * (quad_rows + 1) <= u32::MAX,
    ;
    let n: u32 = quad_cols * quad_rows;
    let mut out: Vec<u32> = Vec::new();
    let mut q: u32 = 0;
    while q < n
        invariant
            q <= n,
            n == quad_cols * quad_rows,
            6 * n <= u32::MAX,
            quad_cols < u32::MAX,
            (quad_cols + 1) * (quad_rows + 1) <= u32::MAX,
            out@ == grid_indices(quad_cols as int, quad_rows as int).take(6 * q as int),
        decreases n - q,
    {
        proof {
            lemma_quad_corner(quad_cols as int, quad_rows as int, q as int);
        }
        let i0: u32 = (q / quad_cols) * (quad_cols + 1) + q % quad_cols;
        let i1: u32 = i0 + 1;
        let i2: u32 = i0 + quad_cols + 1;
        let i3: u32 = i2 + 1;
        out.push(i0);
        out.push(i1);
        out.push(i2);
        out.push(i1);
        out.push(i3);
        out.push(i2);
        assert(out@ =~= grid_indices(quad_cols as int, quad_rows as int).take(6 * (q + 1)));
        q = q + 1;
    }
    assert(out@ =~= grid_indices(quad_cols as int, quad_rows as int));
    out
}

/// The row that connects a pair: the smaller particle comes first, the rest length is the distance
/// of the two.
pub open spec fn links<S, P, D: Fn(P, P) -> S>(
    row: Constraint<S>,
    pair: (u32, u32),
    positions: Seq<P>,
    dist: D,
    compliance: S,
) -> bool {
    &&& (row.i, row.j) == ordered(pair.0, pair.1)
    &&& dist.ensures((positions[pair.0 as int], positions[pair.1 as int]), row.rest)
    &&& row.compliance == compliance
}

/// `rows` connect the pairs one by one.
pub open spec fn all_linked<S, P, D: Fn(P, P) -> S>(
    rows: Seq<Constraint<S>>,
    pairs: Seq<(u32, u32)>,
    positions: Seq<P>,
    dist: D,
    compliance: S,
) -> bool {
    &&& rows.len() == pairs.len()
    &&& forall|k: int|
        0 <= k < rows.len() ==> links(#[trigger] rows[k], pairs[k], positions, dist, compliance)
}

/// Connects each pair of particles by a constraint at its present distance.
pub fn link_pairs<S: Copy, P: Copy, D: Fn(P, P) -> S>(
    pairs: &[(u32, u32)],
    positions: &[P],
    dist: &D,
    compliance: S,
) -> (rows: Vec<Constraint<S>>)
    requires
        forall|k: int|
            0 <= k < pairs@.len() ==> (#[trigger] pairs@[k]).0 < positions@.len() && pairs@[k].1
                < positions@.len(),
        forall|a: P, b: P| #[trigger] dist.requires((a, b)),
    ensures
        all_linked(rows@, pairs@, positions@, *dist, compliance),
{
    let mut rows: Vec<Constraint<S>> = Vec::new();
    let mut k: usize = 0;
    while k < pairs.len()
        invariant
            k <= pairs@.len(),
            forall|k: int|
                0 <= k < pairs@.len() ==> (#[trigger] pairs@[k]).0 < positions@.len() && pairs@[k].1
                    < positions@.len(),
            forall|a: P, b: P| #[trigger] dist.requires((a, b)),
            all_linked(rows@, pairs@.take(k as int), positions@, *dist, compliance),
        decreases pairs@.len() - k,
    {
        let (a, b) = pairs[k];
        let rest = dist(positions[a as usize], positions[b as usize]);
        let row = if a <= b {
            Constraint { i: a, j: b, rest, compliance }
        } else {
            Constraint { i: b, j: a, rest, compliance }
        };
        rows.push(row);
        k = k + 1;
    }
    assert(pairs@.take(k as int) =~= pairs@);
    rows
}

} // verus!
