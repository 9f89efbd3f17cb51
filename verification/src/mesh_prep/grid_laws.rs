//! What connects the particles of a grid, by their columns and rows.

use vstd::arithmetic::div_mod::{lemma_fundamental_div_mod, lemma_fundamental_div_mod_converse};
use vstd::prelude::*;

use crate::mesh_prep::braces::{
    column_skips, cross_pairs, grid_indices, lemma_quad_corner, minus_two, quad_corner,
    quad_triangle_corner, row_skips, skip_two_pairs,
};
use crate::mesh_prep::hanging::{placed_by, textured_by};

verus! {

/// The particle in a column and a row of a grid with so many columns.
pub open spec fn at(cols: int, x: int, y: int) -> int {
    y * cols + x
}

/// The column and row are in the grid.
pub open spec fn on_grid(cols: int, rows: int, x: int, y: int) -> bool {
    0 <= x < cols && 0 <= y < rows
}

pub(crate) proof fn lemma_at(cols: int, rows: int, x: int, y: int)
    requires
        on_grid(cols, rows, x, y),
    ensures
        0 <= at(cols, x, y) < cols * rows,
        at(cols, x, y) / cols == y,
        at(cols, x, y) % cols == x,
{
    lemma_fundamental_div_mod_converse(at(cols, x, y), cols, y, x);
    assert(0 <= y * cols + x < cols * rows) by (nonlinear_arith)
        requires
            0 <= x < cols,
            0 <= y < rows,
    ;
}

/// Particle `at(x, y)` is at the point of column `x` and row `y`, and has its texture coordinates.
pub proof fn law_grid_points<S, G: Fn(u32, u32) -> [S; 3], U: Fn(u32, u32) -> [S; 2]>(
    positions: Seq<[S; 3]>,
    uvs: Seq<[S; 2]>,
    cols: int,
    rows: int,
    point: G,
    uv: U,
    x: u32,
    y: u32,
)
    requires
        positions.len() == cols * rows,
        uvs.len() == cols * rows,
        placed_by(positions, cols, point),
        textured_by(uvs, cols, uv),
        on_grid(cols, rows, x as int, y as int),
    ensures
        point.ensures((x, y), positions[at(cols, x as int, y as int)]),
        uv.ensures((x, y), uvs[at(cols, x as int, y as int)]),
{
    lemma_at(cols, rows, x as int, y as int);
    let k = at(cols, x as int, y as int);
    assert(((k % cols) as u32, (k / cols) as u32) == (x, y));
    assert(positions[k] == positions[k]);
    assert(uvs[k] == uvs[k]);
}

/// The quad between columns `x` and `x + 1` and rows `y` and `y + 1` has two triangles. They share the
/// diagonal from `(x + 1, y)` to `(x, y + 1)` and run round the same way.
pub proof fn law_grid_triangles(quad_cols: int, quad_rows: int, x: int, y: int)
    requires
        on_grid(quad_cols, quad_rows, x, y),
        (quad_cols + 1) * (quad_rows + 1) <= u32::MAX,
    ensures
        ({
            let cols = quad_cols + 1;
            let tri = grid_indices(quad_cols, quad_rows);
            let first = 6 * at(quad_cols, x, y);
            &&& tri.len() == 6 * (quad_cols * quad_rows)
            &&& 0 <= first && first + 5 < tri.len()
            &&& tri[first] == at(cols, x, y)
            &&& tri[first + 1] == at(cols, x + 1, y)
            &&& tri[first + 2] == at(cols, x, y + 1)
            &&& tri[first + 3] == at(cols, x + 1, y)
            &&& tri[first + 4] == at(cols, x + 1, y + 1)
            &&& tri[first + 5] == at(cols, x, y + 1)
        }),
{
    let cols = quad_cols + 1;
    let q = at(quad_cols, x, y);
    lemma_at(quad_cols, quad_rows, x, y);
    lemma_quad_corner(quad_cols, quad_rows, q);
    assert(quad_corner(quad_cols, q) == at(cols, x, y));
    assert(at(cols, x, y + 1) == at(cols, x, y) + cols) by (nonlinear_arith)
        requires
            cols == quad_cols + 1,
    ;
    let tri = grid_indices(quad_cols, quad_rows);
    assert forall|c: int| 0 <= c < 6 implies #[trigger] tri[6 * q + c] == quad_triangle_corner(
        quad_cols,
        at(cols, x, y),
        c,
    ) by {
        assert((6 * q + c) / 6 == q && (6 * q + c) % 6 == c);
    }
    assert(tri[6 * q + 0] == at(cols, x, y));
}

proof fn lemma_same_point(cols: int, x: int, y: int, u: int, v: int)
    requires
        0 <= x < cols,
        0 <= u < cols,
        at(cols, x, y) == at(cols, u, v),
    ensures
        x == u,
        y == v,
{
    lemma_fundamental_div_mod_converse(at(cols, x, y), cols, y, x);
    lemma_fundamental_div_mod_converse(at(cols, u, v), cols, v, u);
}

proof fn lemma_row_pair(cols: int, rows: int, k: int)
    requires
        0 <= cols,
        0 <= rows,
        cols * rows <= u32::MAX,
        0 <= k < row_skips(cols, rows).len(),
    ensures
        ({
            let w = minus_two(cols);
            let (x, y) = (k % w, k / w);
            &&& on_grid(cols, rows, x, y) && x + 2 < cols
            &&& row_skips(cols, rows)[k].0 == at(cols, x, y)
            &&& row_skips(cols, rows)[k].1 == at(cols, x + 2, y)
        }),
{
    let w = minus_two(cols);
    assert(w > 0) by (nonlinear_arith)
        requires
            0 <= k < rows * w,
            0 <= w,
            0 <= rows,
    ;
    lemma_fundamental_div_mod(k, w);
    let (x, y) = (k % w, k / w);
    assert(0 <= y < rows) by (nonlinear_arith)
        requires
            k == w * y + x,
            0 <= x < w,
            0 <= k < rows * w,
    ;
    lemma_at(cols, rows, x, y);
    lemma_at(cols, rows, x + 2, y);
}

proof fn lemma_column_pair(cols: int, rows: int, k: int)
    requires
        0 <= cols,
        0 <= rows,
        cols * rows <= u32::MAX,
        0 <= k < column_skips(cols, rows).len(),
    ensures
        ({
            let (x, y) = (k % cols, k / cols);
            &&& on_grid(cols, rows, x, y) && y + 2 < rows
            &&& column_skips(cols, rows)[k].0 == at(cols, x, y)
            &&& column_skips(cols, rows)[k].1 == at(cols, x, y + 2)
        }),
{
    let h = minus_two(rows);
    assert(cols > 0) by (nonlinear_arith)
        requires
            0 <= k < h * cols,
            0 <= h,
            0 <= cols,
    ;
    lemma_fundamental_div_mod(k, cols);
    let (x, y) = (k % cols, k / cols);
    assert(0 <= y < h && k == y * cols + x) by (nonlinear_arith)
        requires
            k == cols * y + x,
            0 <= x < cols,
            0 <= k < h * cols,
    ;
    lemma_at(cols, rows, x, y);
    lemma_at(cols, rows, x, y + 2);
    assert((y + 2) * cols + x == y * cols + x + 2 * cols) by (nonlinear_arith);
}

/// Two particles of a grid are a pair two apart exactly where they are two columns apart in one row or
/// two rows apart in one column.
pub proof fn law_skip_two_pairs(cols: int, rows: int, x: int, y: int, u: int, v: int)
    requires
        on_grid(cols, rows, x, y),
        on_grid(cols, rows, u, v),
        cols * rows <= u32::MAX,
    ensures
        skip_two_pairs(cols, rows).contains((at(cols, x, y) as u32, at(cols, u, v) as u32)) <==> (y
            == v && u == x + 2 || x == u && v == y + 2),
{
    let pairs = skip_two_pairs(cols, rows);
    let pair = (at(cols, x, y) as u32, at(cols, u, v) as u32);
    let across = row_skips(cols, rows);
    let down = column_skips(cols, rows);
    lemma_at(cols, rows, x, y);
    lemma_at(cols, rows, u, v);
    if pairs.contains(pair) {
        let k = choose|k: int| 0 <= k < pairs.len() && pairs[k] == pair;
        if k < across.len() {
            lemma_row_pair(cols, rows, k);
            let w = minus_two(cols);
            lemma_same_point(cols, x, y, k % w, k / w);
            lemma_same_point(cols, u, v, k % w + 2, k / w);
        } else {
            let l = k - across.len();
            lemma_column_pair(cols, rows, l);
            lemma_same_point(cols, x, y, l % cols, l / cols);
            lemma_same_point(cols, u, v, l % cols, l / cols + 2);
        }
    }
    if y == v && u == x + 2 {
        let w = minus_two(cols);
        let k = at(w, x, y);
        lemma_at(w, rows, x, y);
        assert(w * rows == rows * w) by (nonlinear_arith);
        lemma_row_pair(cols, rows, k);
        assert(pairs[k] == pair);
    }
    if x == u && v == y + 2 {
        let h = minus_two(rows);
        let k = at(cols, x, y);
        lemma_at(cols, h, x, y);
        assert(cols * h == h * cols) by (nonlinear_arith);
        lemma_column_pair(cols, rows, k);
        assert(pairs[across.len() + k] == pair);
    }
}

/// Two particles of a grid are a braced diagonal exactly where the second one is in the next column
/// and the next row.
pub proof fn law_cross_pairs(quad_cols: int, quad_rows: int, x: int, y: int, u: int, v: int)
    requires
        1 <= quad_cols,
        1 <= quad_rows,
        on_grid(quad_cols + 1, quad_rows + 1, x, y),
        on_grid(quad_cols + 1, quad_rows + 1, u, v),
        (quad_cols + 1) * (quad_rows + 1) <= u32::MAX,
    ensures
        cross_pairs(quad_cols, quad_rows).contains(
            (at(quad_cols + 1, x, y) as u32, at(quad_cols + 1, u, v) as u32),
        ) <==> (u == x + 1 && v == y + 1),
{
    let cols = quad_cols + 1;
    let rows = quad_rows + 1;
    let pairs = cross_pairs(quad_cols, quad_rows);
    let pair = (at(cols, x, y) as u32, at(cols, u, v) as u32);
    lemma_at(cols, rows, x, y);
    lemma_at(cols, rows, u, v);
    assert(0 <= quad_cols * quad_rows) by (nonlinear_arith)
        requires
            1 <= quad_cols,
            1 <= quad_rows,
    ;
    if pairs.contains(pair) {
        let q = choose|q: int| 0 <= q < pairs.len() && pairs[q] == pair;
        lemma_quad_corner(quad_cols, quad_rows, q);
        let (a, b) = (q % quad_cols, q / quad_cols);
        assert(at(cols, a + 1, b + 1) == at(cols, a, b) + cols + 1) by (nonlinear_arith);
        lemma_same_point(cols, x, y, a, b);
        lemma_same_point(cols, u, v, a + 1, b + 1);
    }
    if u == x + 1 && v == y + 1 {
        let q = at(quad_cols, x, y);
        lemma_at(quad_cols, quad_rows, x, y);
        lemma_quad_corner(quad_cols, quad_rows, q);
        assert(at(cols, x + 1, y + 1) == at(cols, x, y) + cols + 1) by (nonlinear_arith);
        assert(pairs[q] == pair);
    }
}

} // verus!
