//! The grid that particles are found to fill, and the order in which constraints are visited.

use vstd::prelude::*;

use crate::mesh_prep::batches::{degree, visited_before};
use crate::mesh_prep::braces::{law_grid_pairs_below, skip_two_pairs};
use crate::mesh_prep::grid_fit::{
    coords, fills_grid, fitted, fitted_pairs, kept, lemma_first_below, line_near, on_lines,
    particle_at, slot, taken,
};
use crate::mesh_prep::grid_laws::{at, law_skip_two_pairs, lemma_at};
use crate::mesh_prep::neighbors::Constraint;
use crate::mesh_prep::sort::sorted_by;

verus! {

/// The lines that are kept are far from each other, one from the next. Every coordinate is one of
/// them, or not far from one.
pub proof fn law_kept_lines<S>(values: Seq<S>, far: spec_fn(S, S) -> bool)
    ensures
        forall|k: int|
            0 <= k && k + 1 < kept(values, far).len() ==> far(
                kept(values, far)[k + 1],
                #[trigger] kept(values, far)[k],
            ),
        forall|l: int|
            0 <= l < values.len() ==> kept(values, far).contains(#[trigger] values[l]) || exists|k: int|
                0 <= k < kept(values, far).len() && !far(
                    values[l],
                    #[trigger] kept(values, far)[k],
                ),
        forall|k: int|
            0 <= k < kept(values, far).len() ==> values.contains(#[trigger] kept(values, far)[k]),
        values.len() > 0 ==> kept(values, far).len() > 0 && kept(values, far)[0] == values[0],
    decreases values.len(),
{
    if values.len() > 0 {
        let init = values.drop_last();
        let last = values.last();
        law_kept_lines(init, far);
        let before = kept(init, far);
        let all = kept(values, far);
        assert forall|l: int| 0 <= l < values.len() implies all.contains(#[trigger] values[l])
            || exists|k: int| 0 <= k < all.len() && !far(values[l], #[trigger] all[k]) by {
            if l < init.len() {
                assert(init[l] == values[l]);
                if before.contains(init[l]) {
                    let k = choose|k: int| 0 <= k < before.len() && before[k] == init[l];
                    assert(all[k] == values[l]);
                } else {
                    let k = choose|k: int|
                        0 <= k < before.len() && !far(init[l], #[trigger] before[k]);
                    assert(all[k] == before[k]);
                }
            } else if before.len() == 0 || far(last, before.last()) {
                assert(all[before.len() as int] == last);
            } else {
                assert(!far(last, all[all.len() - 1]));
            }
        }
        assert forall|k: int| 0 <= k < all.len() implies values.contains(#[trigger] all[k]) by {
            if k < before.len() {
                assert(init.contains(before[k]));
                let l = choose|l: int| 0 <= l < init.len() && init[l] == before[k];
                assert(values[l] == all[k]);
            } else {
                assert(values[values.len() - 1] == all[k]);
            }
        }
    }
}

/// The line of a coordinate is the first one near it; there is none where no line is near.
pub proof fn law_line_near<S>(lines: Seq<S>, near: spec_fn(S, S) -> bool, x: S, k: int)
    requires
        0 <= k < lines.len(),
    ensures
        ({
            let l = line_near(lines, near, x);
            &&& 0 <= l <= lines.len()
            &&& l < lines.len() ==> near(lines[l], x)
            &&& near(lines[k], x) ==> l <= k
        }),
{
    let p = |k: int| near(lines[k], x);
    lemma_first_below(p, lines.len() as int);
    if near(lines[k], x) {
        assert(p(k));
    }
}

/// The grid is looked for on the lines of the first and the second coordinates of the particles, each
/// in ascending order.
pub proof fn law_fitted_lines<S>(
    positions: Seq<[S; 3]>,
    xs: Seq<S>,
    ys: Seq<S>,
    rank: spec_fn(S) -> int,
    far: spec_fn(S, S) -> bool,
    near: spec_fn(S, S) -> bool,
)
    requires
        xs.len() == positions.len(),
        ys.len() == positions.len(),
        forall|p: int|
            0 <= p < positions.len() ==> xs[p] == (#[trigger] positions[p])[0] && ys[p]
                == positions[p][1],
    ensures
        ({
            let lines_x = kept(sorted_by(xs, rank), far);
            let lines_y = kept(sorted_by(ys, rank), far);
            &&& fitted(positions, rank, far, near) is Some <==> fills_grid(
                positions,
                lines_x,
                lines_y,
                near,
            )
            &&& fitted(positions, rank, far, near) matches Some(pairs) ==> pairs == fitted_pairs(
                positions,
                lines_x,
                lines_y,
                near,
            )
        }),
{
    assert(coords(positions, 0) =~= xs);
    assert(coords(positions, 1) =~= ys);
}

/// The particles are two columns apart in one row, or two rows apart in one column.
pub open spec fn two_apart<S>(
    lines_x: Seq<S>,
    lines_y: Seq<S>,
    near: spec_fn(S, S) -> bool,
    p: [S; 3],
    q: [S; 3],
) -> bool {
    let (x, y) = (line_near(lines_x, near, p[0]), line_near(lines_y, near, p[1]));
    let (u, v) = (line_near(lines_x, near, q[0]), line_near(lines_y, near, q[1]));
    y == v && u == x + 2 || x == u && v == y + 2
}

/// Each pair that is found in a filled grid is two apart in it.
pub proof fn law_fitted_pairs_are_two_apart<S>(
    positions: Seq<[S; 3]>,
    lines_x: Seq<S>,
    lines_y: Seq<S>,
    near: spec_fn(S, S) -> bool,
    k: int,
)
    requires
        positions.len() <= u32::MAX,
        fills_grid(positions, lines_x, lines_y, near),
        0 <= k < fitted_pairs(positions, lines_x, lines_y, near).len(),
    ensures
        ({
            let (p, q) = fitted_pairs(positions, lines_x, lines_y, near)[k];
            &&& p < positions.len() && q < positions.len()
            &&& two_apart(lines_x, lines_y, near, positions[p as int], positions[q as int])
        }),
{
    let (cols, rows) = (lines_x.len() as int, lines_y.len() as int);
    let pairs = skip_two_pairs(cols, rows);
    law_grid_pairs_below(cols, rows);
    let (a, b) = pairs[k];
    assert(a < b < cols * rows);
    assert(taken(positions, lines_x, lines_y, near, a as int));
    assert(taken(positions, lines_x, lines_y, near, b as int));
    let p = particle_at(positions, lines_x, lines_y, near, a as int);
    let q = particle_at(positions, lines_x, lines_y, near, b as int);
    assert(slot(lines_x, lines_y, near, positions[p]) == a);
    assert(slot(lines_x, lines_y, near, positions[q]) == b);
    lemma_on_grid(positions, lines_x, lines_y, near, p);
    lemma_on_grid(positions, lines_x, lines_y, near, q);
    let (x, y) = (line_near(lines_x, near, positions[p][0]), line_near(
        lines_y,
        near,
        positions[p][1],
    ));
    let (u, v) = (line_near(lines_x, near, positions[q][0]), line_near(
        lines_y,
        near,
        positions[q][1],
    ));
    law_skip_two_pairs(cols, rows, x, y, u, v);
    assert(pairs.contains((at(cols, x, y) as u32, at(cols, u, v) as u32)));
}

proof fn lemma_on_grid<S>(
    positions: Seq<[S; 3]>,
    lines_x: Seq<S>,
    lines_y: Seq<S>,
    near: spec_fn(S, S) -> bool,
    p: int,
)
    requires
        fills_grid(positions, lines_x, lines_y, near),
        0 <= p < positions.len(),
    ensures
        0 <= line_near(lines_x, near, positions[p][0]) < lines_x.len(),
        0 <= line_near(lines_y, near, positions[p][1]) < lines_y.len(),
{
    assert(on_lines(lines_x, lines_y, near, positions[p]));
    law_line_near(lines_x, near, positions[p][0], 0);
    law_line_near(lines_y, near, positions[p][1], 0);
}

/// Each two particles that are two apart in a filled grid are found.
pub proof fn law_two_apart_are_fitted<S>(
    positions: Seq<[S; 3]>,
    lines_x: Seq<S>,
    lines_y: Seq<S>,
    near: spec_fn(S, S) -> bool,
    p: int,
    q: int,
)
    requires
        positions.len() <= u32::MAX,
        fills_grid(positions, lines_x, lines_y, near),
        0 <= p < positions.len(),
        0 <= q < positions.len(),
        two_apart(lines_x, lines_y, near, positions[p], positions[q]),
    ensures
        fitted_pairs(positions, lines_x, lines_y, near).contains((p as u32, q as u32)),
{
    let (cols, rows) = (lines_x.len() as int, lines_y.len() as int);
    let pairs = skip_two_pairs(cols, rows);
    let found = fitted_pairs(positions, lines_x, lines_y, near);
    lemma_on_grid(positions, lines_x, lines_y, near, p);
    lemma_on_grid(positions, lines_x, lines_y, near, q);
    let (x, y) = (line_near(lines_x, near, positions[p][0]), line_near(
        lines_y,
        near,
        positions[p][1],
    ));
    let (u, v) = (line_near(lines_x, near, positions[q][0]), line_near(
        lines_y,
        near,
        positions[q][1],
    ));
    law_skip_two_pairs(cols, rows, x, y, u, v);
    lemma_at(cols, rows, x, y);
    lemma_at(cols, rows, u, v);
    let (a, b) = (at(cols, x, y), at(cols, u, v));
    let k = choose|k: int| 0 <= k < pairs.len() && pairs[k] == (a as u32, b as u32);
    lemma_alone(positions, lines_x, lines_y, near, p);
    lemma_alone(positions, lines_x, lines_y, near, q);
    assert(found[k] == (p as u32, q as u32));
}

proof fn lemma_alone<S>(
    positions: Seq<[S; 3]>,
    lines_x: Seq<S>,
    lines_y: Seq<S>,
    near: spec_fn(S, S) -> bool,
    p: int,
)
    requires
        fills_grid(positions, lines_x, lines_y, near),
        0 <= p < positions.len(),
    ensures
        particle_at(
            positions,
            lines_x,
            lines_y,
            near,
            slot(lines_x, lines_y, near, positions[p]),
        ) == p,
{
    let s = slot(lines_x, lines_y, near, positions[p]);
    let q = particle_at(positions, lines_x, lines_y, near, s);
    assert(slot(lines_x, lines_y, near, positions[q]) == s);
    if q < p {
        assert(slot(lines_x, lines_y, near, positions[q]) != s);
    } else if p < q {
        assert(slot(lines_x, lines_y, near, positions[p]) != slot(
            lines_x,
            lines_y,
            near,
            positions[q],
        ));
    }
}

/// A constraint is visited before another where one of its ends has more constraints than both ends
/// of the other. Where the ends with the most have as many, the constraint that is listed first is.
pub proof fn law_visits<S>(rows: Seq<Constraint<S>>, e: int, f: int)
    ensures
        ({
            let (a, b) = (degree(rows, rows[e].i), degree(rows, rows[e].j));
            let (c, d) = (degree(rows, rows[f].i), degree(rows, rows[f].j));
            &&& a > c && a > d ==> visited_before(rows, e, f)
            &&& b > c && b > d ==> visited_before(rows, e, f)
            &&& a == c && b == d && e < f ==> visited_before(rows, e, f)
            &&& a == d && b == c && e < f ==> visited_before(rows, e, f)
            &&& e != f ==> (visited_before(rows, e, f) <==> !visited_before(rows, f, e))
        }),
{
}

} // verus!
