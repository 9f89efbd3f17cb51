//! Recognizes particles that lie on a full Cartesian grid in the XY plane.

use vstd::prelude::*;

use crate::mesh_prep::braces::{grid_skip_two_pairs, law_grid_pairs_below, skip_two_pairs};
use crate::mesh_prep::neighbors::filled;
use crate::mesh_prep::sort::{law_stable_sort_unique, ranks, sorted_by, stable_sort, stably_sorted, within};

verus! {

/// `f` computes the predicate `p`.
pub open spec fn decides<S, F: Fn(S, S) -> bool>(f: F, p: spec_fn(S, S) -> bool) -> bool {
    forall|a: S, b: S, r: bool| #[trigger] f.ensures((a, b), r) ==> r == p(a, b)
}

/// The first item, and every later one that is far from the last one kept before it.
pub open spec fn kept<S>(values: Seq<S>, far: spec_fn(S, S) -> bool) -> Seq<S>
    decreases values.len(),
{
    if values.len() == 0 {
        seq![]
    } else {
        let before = kept(values.drop_last(), far);
        if before.len() == 0 || far(values.last(), before.last()) {
            before.push(values.last())
        } else {
            before
        }
    }
}

/// The grid lines that coordinates lie on: the sorted coordinates without those that are not far
/// from the one before.
pub open spec fn grid_lines<S>(
    values: Seq<S>,
    rank: spec_fn(S) -> int,
    far: spec_fn(S, S) -> bool,
) -> Seq<S> {
    kept(sorted_by(values, rank), far)
}

/// `lines` are the grid lines that the coordinates lie on, after they were put in some order.
pub open spec fn lines_of<S>(values: Seq<S>, lines: Seq<S>, far: spec_fn(S, S) -> bool) -> bool {
    exists|ordered: Seq<S>|
        ordered.to_multiset() == values.to_multiset() && lines == #[trigger] kept(ordered, far)
}

/// The first number below `n` that satisfies `p`, else `n`.
pub open spec fn first_below(p: spec_fn(int) -> bool, n: int) -> int
    decreases n,
{
    if n <= 0 {
        0
    } else {
        let k = first_below(p, n - 1);
        if k < n - 1 {
            k
        } else if p(n - 1) {
            n - 1
        } else {
            n
        }
    }
}

/// The first line near the coordinate `x`, else the number of lines.
pub open spec fn line_near<S>(lines: Seq<S>, near: spec_fn(S, S) -> bool, x: S) -> int {
    first_below(|k: int| near(lines[k], x), lines.len() as int)
}

/// The grid point of a particle, numbered row by row.
pub open spec fn slot<S>(
    lines_x: Seq<S>,
    lines_y: Seq<S>,
    near: spec_fn(S, S) -> bool,
    p: [S; 3],
) -> int {
    line_near(lines_y, near, p[1]) * lines_x.len() + line_near(lines_x, near, p[0])
}

/// The particle is near a line of either direction.
pub open spec fn on_lines<S>(
    lines_x: Seq<S>,
    lines_y: Seq<S>,
    near: spec_fn(S, S) -> bool,
    p: [S; 3],
) -> bool {
    &&& line_near(lines_x, near, p[0]) < lines_x.len()
    &&& line_near(lines_y, near, p[1]) < lines_y.len()
}

/// The particle at grid point `at`.
pub open spec fn particle_at<S>(
    positions: Seq<[S; 3]>,
    lines_x: Seq<S>,
    lines_y: Seq<S>,
    near: spec_fn(S, S) -> bool,
    at: int,
) -> int {
    choose|pid: int|
        0 <= pid < positions.len() && #[trigger] slot(lines_x, lines_y, near, positions[pid]) == at
}

/// Some particle is at grid point `at`.
pub open spec fn taken<S>(
    positions: Seq<[S; 3]>,
    lines_x: Seq<S>,
    lines_y: Seq<S>,
    near: spec_fn(S, S) -> bool,
    at: int,
) -> bool {
    exists|pid: int|
        0 <= pid < positions.len() && #[trigger] slot(lines_x, lines_y, near, positions[pid]) == at
}

/// At least three lines run in each direction, and every grid point has exactly one particle.
pub open spec fn fills_grid<S>(
    positions: Seq<[S; 3]>,
    lines_x: Seq<S>,
    lines_y: Seq<S>,
    near: spec_fn(S, S) -> bool,
) -> bool {
    &&& lines_x.len() >= 3
    &&& lines_y.len() >= 3
    &&& lines_x.len() * lines_y.len() == positions.len()
    &&& forall|pid: int|
        0 <= pid < positions.len() ==> on_lines(lines_x, lines_y, near, #[trigger] positions[pid])
    &&& forall|a: int, b: int|
        0 <= a < b < positions.len() ==> #[trigger] slot(lines_x, lines_y, near, positions[a])
            != #[trigger] slot(lines_x, lines_y, near, positions[b])
    &&& forall|at: int|
        0 <= at < positions.len() ==> #[trigger] taken(positions, lines_x, lines_y, near, at)
}

/// The pairs two apart in a row or a column of the grid.
pub open spec fn fitted_pairs<S>(
    positions: Seq<[S; 3]>,
    lines_x: Seq<S>,
    lines_y: Seq<S>,
    near: spec_fn(S, S) -> bool,
) -> Seq<(u32, u32)> {
    skip_two_pairs(lines_x.len() as int, lines_y.len() as int).map_values(
        |p: (u32, u32)|
            (
                particle_at(positions, lines_x, lines_y, near, p.0 as int) as u32,
                particle_at(positions, lines_x, lines_y, near, p.1 as int) as u32,
            ),
    )
}

pub open spec fn coords<S>(positions: Seq<[S; 3]>, axis: int) -> Seq<S> {
    positions.map_values(|p: [S; 3]| p[axis])
}

pub(crate) proof fn lemma_first_below(p: spec_fn(int) -> bool, n: int)
    requires
        0 <= n,
    ensures
        0 <= first_below(p, n) <= n,
        first_below(p, n) < n ==> p(first_below(p, n)),
        forall|k: int| 0 <= k < first_below(p, n) ==> !#[trigger] p(k),
    decreases n,
{
    if n > 0 {
        lemma_first_below(p, n - 1);
    }
}

/// Sorts the coordinates and keeps those that are far from the last one kept. Where `le` does not
/// rank the coordinates, the order in which they are looked at is left open.
pub fn dedup_sorted_coords<S: Copy, L: Fn(S, S) -> bool, F: Fn(S, S) -> bool>(
    values: &[S],
    le: &L,
    far: &F,
) -> (r: Vec<S>)
    requires
        forall|a: S, b: S| #[trigger] le.requires((a, b)),
        forall|a: S, b: S| #[trigger] far.requires((a, b)),
    ensures
        r@.len() <= values@.len(),
        forall|far_apart: spec_fn(S, S) -> bool| #[trigger]
            decides(*far, far_apart) ==> lines_of(values@, r@, far_apart),
        forall|rank: spec_fn(S) -> int, domain: Set<S>, far_apart: spec_fn(S, S) -> bool|
            #![trigger ranks(*le, rank, domain), decides(*far, far_apart)]
            ranks(*le, rank, domain) && within(values@, domain) && decides(*far, far_apart) ==> r@
                == grid_lines(values@, rank, far_apart),
{
    let sorted = stable_sort(values, le);
    let mut r: Vec<S> = Vec::new();
    let mut k: usize = 0;
    assert(sorted@.take(0) =~= seq![]);
    while k < sorted.len()
        invariant
            k <= sorted@.len(),
            r@.len() <= k,
            forall|a: S, b: S| #[trigger] far.requires((a, b)),
            forall|far_apart: spec_fn(S, S) -> bool| #[trigger]
                decides(*far, far_apart) ==> r@ == kept(sorted@.take(k as int), far_apart),
        decreases sorted@.len() - k,
    {
        let v = sorted[k];
        assert(sorted@.take(k + 1).drop_last() =~= sorted@.take(k as int));
        let keep: bool = if r.len() == 0 {
            true
        } else {
            far(v, r[r.len() - 1])
        };
        if keep {
            r.push(v);
        }
        k = k + 1;
    }
    proof {
        assert(sorted@.take(k as int) =~= sorted@);
        assert forall|far_apart: spec_fn(S, S) -> bool| #[trigger]
            decides(*far, far_apart) implies lines_of(values@, r@, far_apart) by {
            assert(r@ == kept(sorted@, far_apart));
        }
        assert forall|rank: spec_fn(S) -> int, domain: Set<S>, far_apart: spec_fn(S, S) -> bool|
            #![trigger ranks(*le, rank, domain), decides(*far, far_apart)]
            ranks(*le, rank, domain) && within(values@, domain) && decides(
                *far,
                far_apart,
            ) implies r@ == grid_lines(values@, rank, far_apart) by {
            assert(stably_sorted(values@, sorted@, rank));
            law_stable_sort_unique(values@, sorted@, sorted_by(values@, rank), rank);
        }
    }
    r
}

/// The first line near `x`, else the number of lines.
fn find_line<S: Copy, N: Fn(S, S) -> bool>(lines: &Vec<S>, x: S, near: &N) -> (r: usize)
    requires
        forall|a: S, b: S| #[trigger] near.requires((a, b)),
    ensures
        r <= lines@.len(),
        forall|near_to: spec_fn(S, S) -> bool| #[trigger]
            decides(*near, near_to) ==> r == line_near(lines@, near_to, x),
{
    let mut k: usize = 0;
    while k < lines.len()
        invariant
            k <= lines@.len(),
            forall|a: S, b: S| #[trigger] near.requires((a, b)),
            forall|near_to: spec_fn(S, S) -> bool| #[trigger]
                decides(*near, near_to) ==> forall|l: int|
                    0 <= l < k ==> !near_to(#[trigger] lines@[l], x),
        decreases lines@.len() - k,
    {
        if near(lines[k], x) {
            proof {
                assert forall|near_to: spec_fn(S, S) -> bool| #[trigger]
                    decides(*near, near_to) implies k == line_near(lines@, near_to, x) by {
                    let p = |l: int| near_to(lines@[l], x);
                    lemma_first_below(p, lines@.len() as int);
                    let f = first_below(p, lines@.len() as int);
                    assert(p(k as int));
                    if f < k {
                        assert(near_to(lines@[f], x));
                    }
                }
            }
            return k;
        }
        k = k + 1;
    }
    proof {
        assert forall|near_to: spec_fn(S, S) -> bool| #[trigger]
            decides(*near, near_to) implies k == line_near(lines@, near_to, x) by {
            let p = |l: int| near_to(lines@[l], x);
            lemma_first_below(p, lines@.len() as int);
            let f = first_below(p, lines@.len() as int);
            if f < k {
                assert(near_to(lines@[f], x));
            }
        }
    }
    k
}

fn column<S: Copy>(positions: &[[S; 3]], axis: usize) -> (r: Vec<S>)
    requires
        axis < 3,
    ensures
        r@ == coords(positions@, axis as int),
{
    let mut r: Vec<S> = Vec::new();
    let mut k: usize = 0;
    while k < positions.len()
        invariant
            k <= positions@.len(),
            axis < 3,
            r@ == coords(positions@, axis as int).take(k as int),
        decreases positions@.len() - k,
    {
        r.push(positions[k][axis]);
        assert(r@ =~= coords(positions@, axis as int).take(k + 1));
        k = k + 1;
    }
    assert(r@ =~= coords(positions@, axis as int));
    r
}

/// The table holds exactly the first `n` particles, each at its grid point.
spec fn placed<S>(
    positions: Seq<[S; 3]>,
    lines_x: Seq<S>,
    lines_y: Seq<S>,
    near: spec_fn(S, S) -> bool,
    table: Seq<Option<u32>>,
    n: int,
) -> bool {
    &&& forall|pid: int|
        0 <= pid < n ==> {
            &&& on_lines(lines_x, lines_y, near, #[trigger] positions[pid])
            &&& 0 <= slot(lines_x, lines_y, near, positions[pid]) < table.len()
            &&& table[slot(lines_x, lines_y, near, positions[pid])] == Some(pid as u32)
        }
    &&& forall|at: int|
        0 <= at < table.len() && (#[trigger] table[at]) is Some ==> table[at]->0 < n && slot(
            lines_x,
            lines_y,
            near,
            positions[table[at]->0 as int],
        ) == at
}

proof fn lemma_slot_below(ix: int, iy: int, cols: int, rows: int)
    by (nonlinear_arith)
    requires
        0 <= ix < cols,
        0 <= iy < rows,
    ensures
        0 <= iy * cols + ix < cols * rows,
        0 <= iy * cols <= cols * rows,
{
}

proof fn lemma_table_is_right<S>(
    positions: Seq<[S; 3]>,
    lines_x: Seq<S>,
    lines_y: Seq<S>,
    near: spec_fn(S, S) -> bool,
    table: Seq<Option<u32>>,
)
    requires
        positions.len() <= u32::MAX,
        lines_x.len() >= 3,
        lines_y.len() >= 3,
        lines_x.len() * lines_y.len() == positions.len(),
        table.len() == positions.len(),
        placed(positions, lines_x, lines_y, near, table, positions.len() as int),
        forall|at: int| 0 <= at < table.len() ==> (#[trigger] table[at]) is Some,
    ensures
        fills_grid(positions, lines_x, lines_y, near),
        forall|at: int|
            0 <= at < table.len() ==> (#[trigger] table[at])->0 == particle_at(
                positions,
                lines_x,
                lines_y,
                near,
                at,
            ),
{
    assert forall|at: int| 0 <= at < positions.len() implies #[trigger] taken(
        positions,
        lines_x,
        lines_y,
        near,
        at,
    ) by {
        let pid = table[at]->0 as int;
        assert(slot(lines_x, lines_y, near, positions[pid]) == at);
    }
    assert forall|a: int, b: int| 0 <= a < b < positions.len() implies #[trigger] slot(
        lines_x,
        lines_y,
        near,
        positions[a],
    ) != #[trigger] slot(lines_x, lines_y, near, positions[b]) by {
        assert(table[slot(lines_x, lines_y, near, positions[a])] == Some(a as u32));
        assert(table[slot(lines_x, lines_y, near, positions[b])] == Some(b as u32));
    }
    assert forall|at: int| 0 <= at < table.len() implies (#[trigger] table[at])->0 == particle_at(
        positions,
        lines_x,
        lines_y,
        near,
        at,
    ) by {
        let pid = table[at]->0 as int;
        assert(slot(lines_x, lines_y, near, positions[pid]) == at);
        let other = particle_at(positions, lines_x, lines_y, near, at);
        assert(slot(lines_x, lines_y, near, positions[other]) == at);
        assert(table[slot(lines_x, lines_y, near, positions[other])] == Some(other as u32));
    }
}

/// Puts every particle at its grid point. Fails where a particle is off the lines, two share a
/// point, or a point is left without one.
fn place_on_grid<S: Copy, N: Fn(S, S) -> bool>(
    positions: &[[S; 3]],
    lines_x: &Vec<S>,
    lines_y: &Vec<S>,
    near: &N,
) -> (r: Option<Vec<u32>>)
    requires
        positions@.len() <= u32::MAX,
        lines_x@.len() >= 3,
        lines_y@.len() >= 3,
        lines_x@.len() * lines_y@.len() == positions@.len(),
        forall|a: S, b: S| #[trigger] near.requires((a, b)),
    ensures
        r is Some ==> r->0@.len() == positions@.len() && forall|at: int|
            0 <= at < positions@.len() ==> #[trigger] r->0@[at] < positions@.len(),
        forall|near_to: spec_fn(S, S) -> bool| #[trigger]
            decides(*near, near_to) ==> {
                &&& r is Some <==> fills_grid(positions@, lines_x@, lines_y@, near_to)
                &&& r is Some ==> forall|at: int|
                    0 <= at < positions@.len() ==> #[trigger] r->0@[at] == particle_at(
                        positions@,
                        lines_x@,
                        lines_y@,
                        near_to,
                        at,
                    )
            },
{
    let n: usize = positions.len();
    let mut table: Vec<Option<u32>> = filled(None, n);
    let mut pid: usize = 0;
    while pid < n
        invariant
            pid <= n,
            n == positions@.len(),
            n <= u32::MAX,
            lines_x@.len() * lines_y@.len() == n,
            forall|a: S, b: S| #[trigger] near.requires((a, b)),
            table@.len() == n,
            forall|at: int|
                0 <= at < n && (#[trigger] table@[at]) is Some ==> table@[at]->0 < pid,
            forall|near_to: spec_fn(S, S) -> bool| #[trigger]
                decides(*near, near_to) ==> placed(
                    positions@,
                    lines_x@,
                    lines_y@,
                    near_to,
                    table@,
                    pid as int,
                ),
        decreases n - pid,
    {
        let p = positions[pid];
        let ix: usize = find_line(lines_x, p[0], near);
        let iy: usize = find_line(lines_y, p[1], near);
        if ix >= lines_x.len() || iy >= lines_y.len() {
            proof {
                assert forall|near_to: spec_fn(S, S) -> bool| #[trigger]
                    decides(*near, near_to) implies !fills_grid(
                    positions@,
                    lines_x@,
                    lines_y@,
                    near_to,
                ) by {
                    assert(!on_lines(lines_x@, lines_y@, near_to, positions@[pid as int]));
                }
            }
            return None;
        }
        proof {
            lemma_slot_below(
                ix as int,
                iy as int,
                lines_x@.len() as int,
                lines_y@.len() as int,
            );
        }
        let at: usize = iy * lines_x.len() + ix;
        if table[at].is_some() {
            proof {
                assert forall|near_to: spec_fn(S, S) -> bool| #[trigger]
                    decides(*near, near_to) implies !fills_grid(
                    positions@,
                    lines_x@,
                    lines_y@,
                    near_to,
                ) by {
                    let q = table@[at as int]->0 as int;
                    assert(slot(lines_x@, lines_y@, near_to, positions@[q]) == at);
                    assert(slot(lines_x@, lines_y@, near_to, positions@[pid as int]) == at);
                }
            }
            return None;
        }
        let ghost before = table@;
        table[at] = Some(pid as u32);
        proof {
            assert forall|near_to: spec_fn(S, S) -> bool| #[trigger]
                decides(*near, near_to) implies placed(
                positions@,
                lines_x@,
                lines_y@,
                near_to,
                table@,
                pid + 1,
            ) by {
                assert(placed(positions@, lines_x@, lines_y@, near_to, before, pid as int));
                assert(slot(lines_x@, lines_y@, near_to, positions@[pid as int]) == at);
                assert forall|q: int| 0 <= q < pid + 1 implies {
                    &&& on_lines(lines_x@, lines_y@, near_to, #[trigger] positions@[q])
                    &&& 0 <= slot(lines_x@, lines_y@, near_to, positions@[q]) < table@.len()
                    &&& table@[slot(lines_x@, lines_y@, near_to, positions@[q])] == Some(q as u32)
                } by {
                    if q < pid {
                        assert(before[slot(lines_x@, lines_y@, near_to, positions@[q])] == Some(
                            q as u32,
                        ));
                    }
                }
                assert forall|l: int|
                    0 <= l < table@.len() && (#[trigger] table@[l]) is Some implies table@[l]->0
                    < pid + 1 && slot(
                    lines_x@,
                    lines_y@,
                    near_to,
                    positions@[table@[l]->0 as int],
                ) == l by {
                    if l != at {
                        assert(table@[l] == before[l]);
                    }
                }
            }
        }
        pid = pid + 1;
    }
    let mut out: Vec<u32> = Vec::new();
    let mut at: usize = 0;
    while at < n
        invariant
            at <= n,
            n == positions@.len(),
            n <= u32::MAX,
            table@.len() == n,
            forall|l: int| 0 <= l < n && (#[trigger] table@[l]) is Some ==> table@[l]->0 < n,
            forall|near_to: spec_fn(S, S) -> bool| #[trigger]
                decides(*near, near_to) ==> placed(
                    positions@,
                    lines_x@,
                    lines_y@,
                    near_to,
                    table@,
                    n as int,
                ),
            out@.len() == at,
            forall|l: int| 0 <= l < at ==> #[trigger] table@[l] == Some(out@[l]),
        decreases n - at,
    {
        match table[at] {
            Some(q) => {
                out.push(q);
            },
            None => {
                proof {
                    assert forall|near_to: spec_fn(S, S) -> bool| #[trigger]
                        decides(*near, near_to) implies !fills_grid(
                        positions@,
                        lines_x@,
                        lines_y@,
                        near_to,
                    ) by {
                        if fills_grid(positions@, lines_x@, lines_y@, near_to) {
                            assert(taken(positions@, lines_x@, lines_y@, near_to, at as int));
                            let q = choose|q: int|
                                0 <= q < positions@.len() && #[trigger] slot(
                                    lines_x@,
                                    lines_y@,
                                    near_to,
                                    positions@[q],
                                ) == at;
                            assert(on_lines(lines_x@, lines_y@, near_to, positions@[q]));
                        }
                    }
                }
                return None;
            },
        }
        at = at + 1;
    }
    proof {
        assert forall|near_to: spec_fn(S, S) -> bool| #[trigger] decides(*near, near_to) implies {
            &&& fills_grid(positions@, lines_x@, lines_y@, near_to)
            &&& forall|at: int|
                0 <= at < positions@.len() ==> #[trigger] out@[at] == particle_at(
                    positions@,
                    lines_x@,
                    lines_y@,
                    near_to,
                    at,
                )
        } by {
            lemma_table_is_right(positions@, lines_x@, lines_y@, near_to, table@);
            assert forall|l: int| 0 <= l < positions@.len() implies #[trigger] out@[l]
                == particle_at(positions@, lines_x@, lines_y@, near_to, l) by {
                assert(table@[l] == Some(out@[l]));
            }
        }
        assert forall|l: int| 0 <= l < n implies #[trigger] out@[l] < n by {
            assert(table@[l] == Some(out@[l]));
        }
    }
    Some(out)
}

/// What is found out of the particles: the pairs two apart in a row or a column where they fill a
/// grid, nothing where they do not.
pub open spec fn fitted<S>(
    positions: Seq<[S; 3]>,
    rank: spec_fn(S) -> int,
    far: spec_fn(S, S) -> bool,
    near: spec_fn(S, S) -> bool,
) -> Option<Seq<(u32, u32)>> {
    fitted_on(
        positions,
        grid_lines(coords(positions, 0), rank, far),
        grid_lines(coords(positions, 1), rank, far),
        near,
    )
}

/// The pairs two apart in a row or a column where the particles fill the grid of the lines, nothing
/// where they do not.
pub open spec fn fitted_on<S>(
    positions: Seq<[S; 3]>,
    lines_x: Seq<S>,
    lines_y: Seq<S>,
    near: spec_fn(S, S) -> bool,
) -> Option<Seq<(u32, u32)>> {
    if fills_grid(positions, lines_x, lines_y, near) {
        Some(fitted_pairs(positions, lines_x, lines_y, near))
    } else {
        None
    }
}

/// `found` is what is found out of the particles, with the coordinates looked at in some order.
pub open spec fn fitted_in_some_order<S>(
    positions: Seq<[S; 3]>,
    far: spec_fn(S, S) -> bool,
    near: spec_fn(S, S) -> bool,
    found: Option<Seq<(u32, u32)>>,
) -> bool {
    exists|lines_x: Seq<S>, lines_y: Seq<S>| #[trigger]
        lines_of(coords(positions, 0), lines_x, far) && #[trigger] lines_of(
            coords(positions, 1),
            lines_y,
            far,
        ) && found == fitted_on(positions, lines_x, lines_y, near)
}

/// Some particle has a coordinate in the plane that no line can be near to, as one that is no number.
pub open spec fn off_all_lines<S>(
    positions: Seq<[S; 3]>,
    near: spec_fn(S, S) -> bool,
) -> bool {
    exists|pid: int|
        0 <= pid < positions.len() && (nowhere_near(near, (#[trigger] positions[pid])[0])
            || nowhere_near(near, positions[pid][1]))
}

/// No line can be near to the coordinate `x`.
pub open spec fn nowhere_near<S>(near: spec_fn(S, S) -> bool, x: S) -> bool {
    forall|line: S| !#[trigger] near(line, x)
}

/// Particles with a coordinate that no line can be near to fill no grid.
proof fn lemma_off_all_lines<S>(
    positions: Seq<[S; 3]>,
    lines_x: Seq<S>,
    lines_y: Seq<S>,
    near: spec_fn(S, S) -> bool,
)
    requires
        off_all_lines(positions, near),
    ensures
        !fills_grid(positions, lines_x, lines_y, near),
{
    let pid = choose|pid: int|
        0 <= pid < positions.len() && (nowhere_near(near, (#[trigger] positions[pid])[0])
            || nowhere_near(near, positions[pid][1]));
    let p = positions[pid];
    lemma_first_below(|k: int| near(lines_x[k], p[0]), lines_x.len() as int);
    lemma_first_below(|k: int| near(lines_y[k], p[1]), lines_y.len() as int);
    if fills_grid(positions, lines_x, lines_y, near) {
        assert(on_lines(lines_x, lines_y, near, p));
        assert(near(lines_x[line_near(lines_x, near, p[0])], p[0]));
        assert(near(lines_y[line_near(lines_y, near, p[1])], p[1]));
    }
}

/// The pairs behind a result.
pub open spec fn pairs_found(r: Option<Vec<(u32, u32)>>) -> Option<Seq<(u32, u32)>> {
    match r {
        Some(pairs) => Some(pairs@),
        None => None,
    }
}

/// `le`, `far` and `near` rank and compare the coordinates of the particles.
pub open spec fn compares<
    S,
    L: Fn(S, S) -> bool,
    F: Fn(S, S) -> bool,
    N: Fn(S, S) -> bool,
>(
    le: L,
    far: F,
    near: N,
    positions: Seq<[S; 3]>,
    rank: spec_fn(S) -> int,
    domain: Set<S>,
    far_apart: spec_fn(S, S) -> bool,
    near_to: spec_fn(S, S) -> bool,
) -> bool {
    &&& ranks(le, rank, domain)
    &&& within(coords(positions, 0), domain)
    &&& within(coords(positions, 1), domain)
    &&& decides(far, far_apart)
    &&& decides(near, near_to)
}

/// The pairs two apart in the rows and columns of the grid that the particles fill in the XY plane,
/// or nothing where they fill none.
///
/// `le` orders coordinates, `far` says that two of them are on different lines, and `near` that a
/// line runs through a coordinate.
pub fn axis_aligned_grid_skip_two_pairs<
    S: Copy,
    L: Fn(S, S) -> bool,
    F: Fn(S, S) -> bool,
    N: Fn(S, S) -> bool,
>(positions: &[[S; 3]], le: &L, far: &F, near: &N) -> (r: Option<Vec<(u32, u32)>>)
    requires
        positions@.len() <= u32::MAX,
        forall|a: S, b: S| #[trigger] le.requires((a, b)),
        forall|a: S, b: S| #[trigger] far.requires((a, b)),
        forall|a: S, b: S| #[trigger] near.requires((a, b)),
    ensures
        r is Some ==> forall|k: int|
            0 <= k < r->0@.len() ==> (#[trigger] r->0@[k]).0 < positions@.len() && r->0@[k].1
                < positions@.len(),
        r is Some ==> r->0@.len() <= 2 * positions@.len(),
        forall|near_to: spec_fn(S, S) -> bool| #[trigger]
            decides(*near, near_to) && off_all_lines(positions@, near_to) ==> r is None,
        forall|far_apart: spec_fn(S, S) -> bool, near_to: spec_fn(S, S) -> bool| #[trigger]
            decides(*far, far_apart) && #[trigger] decides(*near, near_to) ==> fitted_in_some_order(
                positions@,
                far_apart,
                near_to,
                pairs_found(r),
            ),
        forall|
            rank: spec_fn(S) -> int,
            domain: Set<S>,
            far_apart: spec_fn(S, S) -> bool,
            near_to: spec_fn(S, S) -> bool,
        | #[trigger]
            compares(*le, *far, *near, positions@, rank, domain, far_apart, near_to)
                ==> pairs_found(r) == fitted(positions@, rank, far_apart, near_to),
{
    let xs = column(positions, 0);
    let ys = column(positions, 1);
    let lines_x = dedup_sorted_coords(xs.as_slice(), le, far);
    let lines_y = dedup_sorted_coords(ys.as_slice(), le, far);
    let cols: usize = lines_x.len();
    let rows: usize = lines_y.len();
    let full = match cols.checked_mul(rows) {
        Some(n) => n == positions.len(),
        None => false,
    };
    if cols < 3 || rows < 3 || !full {
        proof {
            assert forall|near_to: spec_fn(S, S) -> bool| #[trigger]
                decides(*near, near_to) implies fitted_on(
                positions@,
                lines_x@,
                lines_y@,
                near_to,
            ) is None by {}
        }
        return None;
    }
    let placed_at = match place_on_grid(positions, &lines_x, &lines_y, near) {
        Some(t) => t,
        None => {
            return None;
        },
    };
    let pairs = grid_skip_two_pairs(cols as u32, rows as u32);
    proof {
        assert forall|near_to: spec_fn(S, S) -> bool| #[trigger]
            decides(*near, near_to) implies !off_all_lines(positions@, near_to) by {
            if off_all_lines(positions@, near_to) {
                lemma_off_all_lines(positions@, lines_x@, lines_y@, near_to);
            }
        }
        law_grid_pairs_below(cols as int, rows as int);
        assert(0 <= rows * (cols - 2) <= cols * rows && 0 <= (rows - 2) * cols <= cols * rows)
            by (nonlinear_arith)
            requires
                cols >= 3,
                rows >= 3,
        ;
    }
    let mut out: Vec<(u32, u32)> = Vec::new();
    let mut k: usize = 0;
    while k < pairs.len()
        invariant
            k <= pairs@.len(),
            placed_at@.len() == positions@.len(),
            forall|k: int|
                0 <= k < pairs@.len() ==> (#[trigger] pairs@[k]).0 < pairs@[k].1
                    < positions@.len(),
            forall|at: int|
                0 <= at < positions@.len() ==> #[trigger] placed_at@[at] < positions@.len(),
            out@.len() == k,
            forall|l: int|
                0 <= l < k ==> #[trigger] out@[l] == (
                    placed_at@[pairs@[l].0 as int],
                    placed_at@[pairs@[l].1 as int],
                ),
        decreases pairs@.len() - k,
    {
        let (a, b) = pairs[k];
        out.push((placed_at[a as usize], placed_at[b as usize]));
        k = k + 1;
    }
    proof {
        assert forall|near_to: spec_fn(S, S) -> bool| #[trigger]
            decides(*near, near_to) implies fitted_on(positions@, lines_x@, lines_y@, near_to)
            == Some(out@) by {
            assert(out@ =~= fitted_pairs(positions@, lines_x@, lines_y@, near_to));
        }
    }
    Some(out)
}

} // verus!
