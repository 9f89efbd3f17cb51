//! What the collision kernels compute together, when each is dispatched over all its invocations: a
//! radix sort of the particles by cell, the range of every cell in the sorted order, and from these
//! the pairs that the narrow phase looks at.
//!
//! A radix pass sorts by its digit in whatever order its invocations run. That it keeps the order of
//! items with equal digits, which several passes together rest on, needs the invocations of the
//! scatter kernel to run in ascending order.

use vstd::arithmetic::div_mod::{lemma_breakdown, lemma_small_mod};
use vstd::prelude::*;

use crate::arith::ArithModel;
use crate::atom::wrapping_sum_i32;
use crate::common::{
    cell_of, cell_x, cell_y, cell_z, clamp_to, law_cell_coords_in_grid, law_cell_of_in_grid,
    law_flat_index_decodes, law_neighbor_shifts_coords, neighbor_of,
};
use crate::gs::{
    add3, add3_if, bins_below, cell_at, cell_partners, count_step, digit_of, end_step, offset_of,
    pair_effect, pair_input, partners, pass_input, place_digit, pow256, range_partners, run_ends,
    run_starts, sorted_perm, start_step, EMPTY_CELL,
};
use crate::types::{CollGridUniform, SimParams};

verus! {

/// How many of the first `k` items have digit `d`.
pub open spec fn count_eq(digits: Seq<int>, k: int, d: int) -> int
    decreases k,
{
    if k <= 0 {
        0
    } else {
        count_eq(digits, k - 1, d) + if digits[k - 1] == d {
            1int
        } else {
            0
        }
    }
}

/// How many of the first `k` items have a digit below `d`.
pub open spec fn count_less(digits: Seq<int>, k: int, d: int) -> int
    decreases k,
{
    if k <= 0 {
        0
    } else {
        count_less(digits, k - 1, d) + if digits[k - 1] < d {
            1int
        } else {
            0
        }
    }
}

/// Where a stable sort by digit puts item `k`.
pub open spec fn place(digits: Seq<int>, k: int) -> int {
    count_less(digits, digits.len() as int, digits[k]) + count_eq(digits, k, digits[k])
}

/// Every item is a digit to the base 256.
pub open spec fn are_digits(digits: Seq<int>) -> bool {
    forall|k: int| 0 <= k < digits.len() ==> 0 <= #[trigger] digits[k] < 256
}

/// The histogram after the invocations `0 .. k` counted, from a cleared one.
pub open spec fn hist_after(digits: Seq<int>, k: int) -> Seq<u32>
    decreases k,
{
    if k <= 0 {
        Seq::new(256, |d: int| 0u32)
    } else {
        count_step(hist_after(digits, k - 1), digits[k - 1])
    }
}

/// The first place of each digit, once all items are counted.
pub open spec fn heads(digits: Seq<int>) -> Seq<u32> {
    Seq::new(256, |d: int| bins_below(hist_after(digits, digits.len() as int), d) as u32)
}

/// The next place of each digit after the invocations `0 .. k` scattered.
pub open spec fn heads_after(digits: Seq<int>, k: int) -> Seq<u32>
    decreases k,
{
    if k <= 0 {
        heads(digits)
    } else {
        count_step(heads_after(digits, k - 1), digits[k - 1])
    }
}

/// The output buffer after the invocations `0 .. k` scattered the items of `input` over `stale`.
pub open spec fn scatter_after(
    digits: Seq<int>,
    input: Seq<u32>,
    stale: Seq<u32>,
    k: int,
) -> Seq<u32>
    decreases k,
{
    if k <= 0 {
        stale
    } else {
        scatter_after(digits, input, stale, k - 1).update(
            heads_after(digits, k - 1)[digits[k - 1]] as int,
            input[k - 1],
        )
    }
}

proof fn lemma_counts(digits: Seq<int>, k: int, d: int)
    requires
        0 <= k,
    ensures
        0 <= count_eq(digits, k, d) <= k,
        0 <= count_less(digits, k, d) <= k,
        count_less(digits, k, d + 1) == count_less(digits, k, d) + count_eq(digits, k, d),
    decreases k,
{
    if k > 0 {
        lemma_counts(digits, k - 1, d);
    }
}

proof fn lemma_count_eq_grows(digits: Seq<int>, k: int, l: int, d: int)
    requires
        0 <= k <= l,
    ensures
        count_eq(digits, k, d) <= count_eq(digits, l, d),
        k < l && digits[k] == d ==> count_eq(digits, k, d) < count_eq(digits, l, d),
    decreases l,
{
    if k < l {
        lemma_count_eq_grows(digits, k, l - 1, d);
    }
}

proof fn lemma_count_less_grows(digits: Seq<int>, k: int, c: int, d: int)
    requires
        0 <= k,
        c <= d,
    ensures
        count_less(digits, k, c) <= count_less(digits, k, d),
    decreases k,
{
    if k > 0 {
        lemma_count_less_grows(digits, k - 1, c, d);
    }
}

proof fn lemma_count_less_ends(digits: Seq<int>, k: int)
    requires
        are_digits(digits),
        0 <= k <= digits.len(),
    ensures
        count_less(digits, k, 0) == 0,
        count_less(digits, k, 256) == k,
    decreases k,
{
    if k > 0 {
        lemma_count_less_ends(digits, k - 1);
    }
}

proof fn lemma_hist_counts(digits: Seq<int>, k: int)
    requires
        are_digits(digits),
        0 <= k <= digits.len(),
        digits.len() <= u32::MAX,
    ensures
        hist_after(digits, k).len() == 256,
        forall|d: int| 0 <= d < 256 ==> #[trigger] hist_after(digits, k)[d] == count_eq(digits, k, d),
    decreases k,
{
    if k > 0 {
        lemma_hist_counts(digits, k - 1);
        lemma_counts(digits, k - 1, digits[k - 1]);
    }
}

proof fn lemma_bins_are_counts(digits: Seq<int>, d: int)
    requires
        are_digits(digits),
        digits.len() <= u32::MAX,
        0 <= d <= 256,
    ensures
        bins_below(hist_after(digits, digits.len() as int), d) == count_less(
            digits,
            digits.len() as int,
            d,
        ),
    decreases d,
{
    let n = digits.len() as int;
    lemma_hist_counts(digits, n);
    if d > 0 {
        lemma_bins_are_counts(digits, d - 1);
        lemma_counts(digits, n, d - 1);
    } else {
        lemma_count_less_ends(digits, n);
    }
}

proof fn lemma_heads_count(digits: Seq<int>, k: int)
    requires
        are_digits(digits),
        0 <= k <= digits.len(),
        digits.len() <= u32::MAX,
    ensures
        heads_after(digits, k).len() == 256,
        forall|d: int|
            0 <= d < 256 ==> #[trigger] heads_after(digits, k)[d] == count_less(
                digits,
                digits.len() as int,
                d,
            ) + count_eq(digits, k, d),
    decreases k,
{
    let n = digits.len() as int;
    if k > 0 {
        lemma_heads_count(digits, k - 1);
        law_place_is_stable_order(digits, k - 1, k - 1);
    } else {
        assert forall|d: int| 0 <= d < 256 implies #[trigger] heads_after(digits, k)[d]
            == count_less(digits, n, d) by {
            lemma_bins_are_counts(digits, d);
            lemma_counts(digits, n, d);
        }
    }
}

/// The places are those of a stable sort: they lie among the items, and an item comes before
/// another exactly where its digit is smaller, or the digits are equal and it came before.
pub proof fn law_place_is_stable_order(digits: Seq<int>, k: int, l: int)
    requires
        are_digits(digits),
        0 <= k < digits.len(),
        0 <= l < digits.len(),
    ensures
        0 <= place(digits, k) < digits.len(),
        place(digits, k) < place(digits, l) <==> digits[k] < digits[l] || digits[k] == digits[l]
            && k < l,
{
    let n = digits.len() as int;
    lemma_counts(digits, n, digits[k]);
    lemma_counts(digits, n, digits[l]);
    lemma_counts(digits, k, digits[k]);
    lemma_counts(digits, l, digits[l]);
    lemma_count_eq_grows(digits, k, n, digits[k]);
    lemma_count_eq_grows(digits, l, n, digits[l]);
    lemma_count_less_grows(digits, n, digits[k] + 1, 256);
    lemma_count_less_ends(digits, n);
    if digits[k] < digits[l] {
        lemma_count_less_grows(digits, n, digits[k] + 1, digits[l]);
    } else if digits[l] < digits[k] {
        lemma_count_less_grows(digits, n, digits[l] + 1, digits[k]);
    } else if k < l {
        lemma_count_eq_grows(digits, k, l, digits[k]);
    } else if l < k {
        lemma_count_eq_grows(digits, l, k, digits[k]);
    }
}

/// The item of digit `d` that `c` others of the digit precede.
proof fn lemma_nth_of_digit(digits: Seq<int>, k: int, d: int, c: int) -> (m: int)
    requires
        0 <= k <= digits.len(),
        0 <= c < count_eq(digits, k, d),
    ensures
        0 <= m < k,
        digits[m] == d,
        count_eq(digits, m, d) == c,
    decreases k,
{
    if c < count_eq(digits, k - 1, d) {
        lemma_nth_of_digit(digits, k - 1, d, c)
    } else {
        k - 1
    }
}

/// The item that the stable sort puts at place `a`, looked for among the digits below `d`.
proof fn lemma_item_at_place(digits: Seq<int>, a: int, d: int) -> (m: int)
    requires
        are_digits(digits),
        0 <= d <= 256,
        0 <= a < count_less(digits, digits.len() as int, d),
    ensures
        0 <= m < digits.len(),
        place(digits, m) == a,
    decreases d,
{
    let n = digits.len() as int;
    lemma_count_less_ends(digits, n);
    if d == 0 {
        0
    } else if a < count_less(digits, n, d - 1) {
        lemma_item_at_place(digits, a, d - 1)
    } else {
        lemma_counts(digits, n, d - 1);
        lemma_nth_of_digit(digits, n, d - 1, a - count_less(digits, n, d - 1))
    }
}

/// Every place is taken by some item.
pub proof fn law_every_place_is_taken(digits: Seq<int>, a: int) -> (m: int)
    requires
        are_digits(digits),
        0 <= a < digits.len(),
    ensures
        0 <= m < digits.len(),
        place(digits, m) == a,
{
    lemma_count_less_ends(digits, digits.len() as int);
    lemma_item_at_place(digits, a, 256)
}

/// One radix pass whose invocations run in ascending order puts every item at its place of the stable
/// sort by digit, and never writes outside the buffer, whatever the buffer held before.
pub proof fn law_radix_pass_sorts(digits: Seq<int>, input: Seq<u32>, stale: Seq<u32>, k: int)
    requires
        are_digits(digits),
        digits.len() <= u32::MAX,
        input.len() == digits.len(),
        stale.len() == digits.len(),
        0 <= k <= digits.len(),
    ensures
        scatter_after(digits, input, stale, k).len() == digits.len(),
        forall|m: int|
            0 <= m < k ==> #[trigger] scatter_after(digits, input, stale, k)[place(digits, m)]
                == input[m],
        k < digits.len() ==> heads_after(digits, k)[digits[k]] == place(digits, k) && place(
            digits,
            k,
        ) < stale.len(),
    decreases k,
{
    lemma_heads_count(digits, k);
    if k > 0 {
        law_radix_pass_sorts(digits, input, stale, k - 1);
        assert forall|m: int| 0 <= m < k implies #[trigger] scatter_after(
            digits,
            input,
            stale,
            k,
        )[place(digits, m)] == input[m] by {
            law_place_is_stable_order(digits, m, k - 1);
            law_place_is_stable_order(digits, k - 1, m);
        }
    }
    if k < digits.len() {
        law_place_is_stable_order(digits, k, k);
    }
}

/// The items of `s` in the order in which `order` lists them.
pub open spec fn along<A>(s: Seq<A>, order: Seq<u32>) -> Seq<A> {
    Seq::new(order.len(), |x: int| s[order[x] as int])
}

/// The histogram after the first `k` invocations that `order` lists counted, from a cleared one.
pub open spec fn hist_along(digits: Seq<int>, order: Seq<u32>, k: int) -> Seq<u32>
    decreases k,
{
    if k <= 0 {
        Seq::new(256, |d: int| 0u32)
    } else {
        count_step(hist_along(digits, order, k - 1), digits[order[k - 1] as int])
    }
}

/// The next place of each digit after the first `k` invocations that `order` lists scattered. The
/// items were counted in the order `counted`.
pub open spec fn heads_along(
    digits: Seq<int>,
    counted: Seq<u32>,
    order: Seq<u32>,
    k: int,
) -> Seq<u32>
    decreases k,
{
    if k <= 0 {
        Seq::new(
            256,
            |d: int| bins_below(hist_along(digits, counted, digits.len() as int), d) as u32,
        )
    } else {
        count_step(heads_along(digits, counted, order, k - 1), digits[order[k - 1] as int])
    }
}

/// The output buffer after the first `k` invocations that `order` lists scattered the items of
/// `input` over `stale`.
pub open spec fn scatter_along(
    digits: Seq<int>,
    input: Seq<u32>,
    stale: Seq<u32>,
    counted: Seq<u32>,
    order: Seq<u32>,
    k: int,
) -> Seq<u32>
    decreases k,
{
    if k <= 0 {
        stale
    } else {
        scatter_along(digits, input, stale, counted, order, k - 1).update(
            heads_along(digits, counted, order, k - 1)[digits[order[k - 1] as int]] as int,
            input[order[k - 1] as int],
        )
    }
}

/// Without one item, the digit of that item is counted once less.
proof fn lemma_count_without(digits: Seq<int>, x: int, k: int, d: int)
    requires
        0 <= x < digits.len(),
        0 <= k <= digits.len(),
    ensures
        k <= x ==> count_eq(digits.remove(x), k, d) == count_eq(digits, k, d),
        k > x ==> count_eq(digits, k, d) == count_eq(digits.remove(x), k - 1, d) + if digits[x] == d {
            1int
        } else {
            0
        },
    decreases k,
{
    if k > 0 {
        lemma_count_without(digits, x, k - 1, d);
    }
}

/// A listing of the first `n` numbers without the largest is a listing of one number less.
proof fn lemma_lists_without_last(order: Seq<u32>, n: int, x: int)
    requires
        lists_all(order, n),
        0 <= x < n,
        order[x] == n - 1,
    ensures
        lists_all(order.remove(x), n - 1),
{
    let less = order.remove(x);
    assert forall|k: int| 0 <= k < n - 1 implies #[trigger] less[k] < n - 1 by {
        let from = if k < x {
            k
        } else {
            k + 1
        };
        assert(less[k] == order[from]);
        assert(order[from] < n);
        assert(order[from] != order[x]);
    }
    assert forall|k: int, l: int| 0 <= k < n - 1 && 0 <= l < n - 1 && k != l implies less[k]
        != less[l] by {
        let a = if k < x {
            k
        } else {
            k + 1
        };
        let b = if l < x {
            l
        } else {
            l + 1
        };
        assert(less[k] == order[a] && less[l] == order[b]);
    }
    assert forall|j: u32| j < n - 1 implies #[trigger] less.contains(j) by {
        assert(order.contains(j));
        let k = choose|k: int| 0 <= k < n && #[trigger] order[k] == j;
        assert(less[if k < x {
            k
        } else {
            k - 1
        }] == j);
    }
}

/// Every digit occurs as often, in whatever order the items are listed.
proof fn lemma_counts_in_any_order(digits: Seq<int>, order: Seq<u32>, n: int, d: int)
    requires
        0 <= n <= digits.len(),
        n <= u32::MAX,
        lists_all(order, n),
    ensures
        count_eq(along(digits, order), n, d) == count_eq(digits, n, d),
    decreases n,
{
    if n > 0 {
        let last = (n - 1) as u32;
        assert(order.contains(last));
        let x = choose|x: int| 0 <= x < n && #[trigger] order[x] == last;
        lemma_lists_without_last(order, n, x);
        lemma_counts_in_any_order(digits, order.remove(x), n - 1, d);
        lemma_count_without(along(digits, order), x, n, d);
        assert(along(digits, order).remove(x) =~= along(digits, order.remove(x)));
    }
}

/// As many items have a smaller digit, in whatever order they are listed.
proof fn lemma_less_in_any_order(digits: Seq<int>, order: Seq<u32>, d: int)
    requires
        are_digits(digits),
        digits.len() <= u32::MAX,
        lists_all(order, digits.len() as int),
        0 <= d,
    ensures
        are_digits(along(digits, order)),
        count_less(along(digits, order), digits.len() as int, d) == count_less(
            digits,
            digits.len() as int,
            d,
        ),
    decreases d,
{
    let n = digits.len() as int;
    let listed = along(digits, order);
    assert forall|k: int| 0 <= k < listed.len() implies 0 <= #[trigger] listed[k] < 256 by {
        assert(order[k] < n);
        assert(0 <= digits[order[k] as int] < 256);
    }
    lemma_count_less_ends(digits, n);
    lemma_count_less_ends(listed, n);
    if d > 0 {
        lemma_less_in_any_order(digits, order, d - 1);
        lemma_counts(digits, n, d - 1);
        lemma_counts(listed, n, d - 1);
        lemma_counts_in_any_order(digits, order, n, d - 1);
    }
}

proof fn lemma_hist_along(digits: Seq<int>, order: Seq<u32>, k: int)
    requires
        0 <= k <= order.len(),
    ensures
        hist_along(digits, order, k) == hist_after(along(digits, order), k),
    decreases k,
{
    if k > 0 {
        lemma_hist_along(digits, order, k - 1);
    }
}

proof fn lemma_heads_along(digits: Seq<int>, counted: Seq<u32>, order: Seq<u32>, k: int)
    requires
        are_digits(digits),
        digits.len() <= u32::MAX,
        lists_all(counted, digits.len() as int),
        lists_all(order, digits.len() as int),
        0 <= k <= digits.len(),
    ensures
        heads_along(digits, counted, order, k) == heads_after(along(digits, order), k),
    decreases k,
{
    let n = digits.len() as int;
    if k > 0 {
        lemma_heads_along(digits, counted, order, k - 1);
    } else {
        lemma_hist_along(digits, counted, n);
        let a = heads_along(digits, counted, order, 0);
        let b = heads(along(digits, order));
        assert forall|d: int| 0 <= d < 256 implies a[d] == b[d] by {
            lemma_less_in_any_order(digits, counted, d);
            lemma_less_in_any_order(digits, order, d);
            lemma_bins_are_counts(along(digits, counted), d);
            lemma_bins_are_counts(along(digits, order), d);
        }
        assert(a =~= b);
    }
}

/// One radix pass, in whatever order its items are counted and scattered, puts the item that the
/// scatter takes as its `x`-th at the place that a stable sort of the items in that order gives it.
/// It never writes outside the buffer, whatever the buffer held before.
pub proof fn law_radix_pass_in_any_order(
    digits: Seq<int>,
    input: Seq<u32>,
    stale: Seq<u32>,
    counted: Seq<u32>,
    order: Seq<u32>,
    k: int,
)
    requires
        are_digits(digits),
        digits.len() <= u32::MAX,
        input.len() == digits.len(),
        stale.len() == digits.len(),
        lists_all(counted, digits.len() as int),
        lists_all(order, digits.len() as int),
        0 <= k <= digits.len(),
    ensures
        are_digits(along(digits, order)),
        scatter_along(digits, input, stale, counted, order, k).len() == digits.len(),
        forall|x: int|
            0 <= x < k ==> #[trigger] scatter_along(digits, input, stale, counted, order, k)[place(
                along(digits, order),
                x,
            )] == input[order[x] as int],
        k < digits.len() ==> heads_along(digits, counted, order, k)[digits[order[k] as int]]
            < stale.len(),
{
    let listed = along(digits, order);
    lemma_less_in_any_order(digits, order, 0);
    lemma_scatter_along(digits, input, stale, counted, order, k);
    law_radix_pass_sorts(listed, along(input, order), stale, k);
    lemma_heads_along(digits, counted, order, k);
    assert forall|x: int| 0 <= x < k implies #[trigger] scatter_along(
        digits,
        input,
        stale,
        counted,
        order,
        k,
    )[place(listed, x)] == input[order[x] as int] by {
        assert(scatter_after(listed, along(input, order), stale, k)[place(listed, x)] == along(
            input,
            order,
        )[x]);
    }
}

proof fn lemma_scatter_along(
    digits: Seq<int>,
    input: Seq<u32>,
    stale: Seq<u32>,
    counted: Seq<u32>,
    order: Seq<u32>,
    k: int,
)
    requires
        are_digits(digits),
        digits.len() <= u32::MAX,
        input.len() == digits.len(),
        lists_all(counted, digits.len() as int),
        lists_all(order, digits.len() as int),
        0 <= k <= digits.len(),
    ensures
        scatter_along(digits, input, stale, counted, order, k) == scatter_after(
            along(digits, order),
            along(input, order),
            stale,
            k,
        ),
    decreases k,
{
    if k > 0 {
        lemma_scatter_along(digits, input, stale, counted, order, k - 1);
        lemma_heads_along(digits, counted, order, k - 1);
    }
}

/// The digits of the particles, place by place, in radix pass `pass`.
pub open spec fn digits_in_pass<S>(
    grid: CollGridUniform<S>,
    sim_cell: Seq<[i32; 3]>,
    perm: Seq<u32>,
    pass: u32,
) -> Seq<int> {
    Seq::new(perm.len(), |k: int| place_digit(grid, sim_cell, perm, pass, k))
}

/// The two permutation buffers after `passes` radix passes.
pub open spec fn radix_state<S>(
    grid: CollGridUniform<S>,
    sim_cell: Seq<[i32; 3]>,
    ping: Seq<u32>,
    pong: Seq<u32>,
    passes: u32,
) -> (Seq<u32>, Seq<u32>)
    decreases passes,
{
    if passes == 0 {
        (ping, pong)
    } else {
        let pass = (passes - 1) as u32;
        let (a, b) = radix_state(grid, sim_cell, ping, pong, pass);
        let input = pass_input(a, b, pass);
        let stale = pass_input(b, a, pass);
        let out = scatter_after(
            digits_in_pass(grid, sim_cell, input, pass),
            input,
            stale,
            input.len() as int,
        );
        if pass % 2 == 1 {
            (out, b)
        } else {
            (a, out)
        }
    }
}

/// `perm` lists each of the particles `0 .. n` once.
pub open spec fn lists_all(perm: Seq<u32>, n: int) -> bool {
    &&& perm.len() == n
    &&& forall|k: int| 0 <= k < n ==> #[trigger] perm[k] < n
    &&& forall|k: int, l: int| 0 <= k < n && 0 <= l < n && k != l ==> perm[k] != perm[l]
    &&& forall|j: u32| j < n ==> #[trigger] perm.contains(j)
}

/// `perm` is in the order of the low `p` digits of the cell, and of the particle among equals.
pub open spec fn sorted_by_low_digits<S>(
    grid: CollGridUniform<S>,
    sim_cell: Seq<[i32; 3]>,
    perm: Seq<u32>,
    p: nat,
) -> bool {
    forall|k: int, l: int|
        0 <= k < l < perm.len() ==> {
            let ck = #[trigger] cell_at(grid, sim_cell, perm, k) % (pow256(p) as int);
            let cl = #[trigger] cell_at(grid, sim_cell, perm, l) % (pow256(p) as int);
            ck < cl || ck == cl && perm[k] < perm[l]
        }
}

/// `perm` is in the order of the cells, and of the particle within a cell.
pub open spec fn sorted_by_cell<S>(
    grid: CollGridUniform<S>,
    sim_cell: Seq<[i32; 3]>,
    perm: Seq<u32>,
) -> bool {
    forall|k: int, l: int|
        0 <= k < l < perm.len() ==> {
            let ck = #[trigger] cell_at(grid, sim_cell, perm, k);
            let cl = #[trigger] cell_at(grid, sim_cell, perm, l);
            ck < cl || ck == cl && perm[k] < perm[l]
        }
}

/// The permutation before the first pass: every particle at its own place.
pub open spec fn identity_perm(n: nat) -> Seq<u32> {
    Seq::new(n, |k: int| k as u32)
}

proof fn lemma_pow256_pos(p: nat)
    ensures
        pow256(p) > 0,
    decreases p,
{
    if p > 0 {
        lemma_pow256_pos((p - 1) as nat);
    }
}

/// The low `p + 1` digits are digit `p` over the low `p` digits.
proof fn lemma_low_digits_split(f: int, p: nat)
    requires
        0 <= f,
    ensures
        f % (pow256(p + 1) as int) == digit_of(f, p as int) * pow256(p) + f % (pow256(p) as int),
        0 <= digit_of(f, p as int) < 256,
        0 <= f % (pow256(p) as int) < pow256(p),
{
    lemma_pow256_pos(p);
    let b = pow256(p) as int;
    assert(pow256(p + 1) == 256 * pow256(p));
    assert(b * 256 == 256 * b) by (nonlinear_arith);
    lemma_breakdown(f, b, 256);
    assert(b * ((f / b) % 256) == ((f / b) % 256) * b) by (nonlinear_arith);
}

/// Comparing by the high digit first and by the low digits next compares the whole.
proof fn lemma_digit_order(h1: int, l1: int, h2: int, l2: int, b: int)
    requires
        0 <= l1 < b,
        0 <= l2 < b,
    ensures
        h1 < h2 ==> h1 * b + l1 < h2 * b + l2,
        h1 == h2 ==> (h1 * b + l1 < h2 * b + l2 <==> l1 < l2) && (h1 * b + l1 == h2 * b + l2
            <==> l1 == l2),
{
    if h1 < h2 {
        assert(h1 * b + b <= h2 * b) by (nonlinear_arith)
            requires
                h1 + 1 <= h2,
                b > 0,
        ;
    }
}

proof fn lemma_pass_digits<S>(
    grid: CollGridUniform<S>,
    sim_cell: Seq<[i32; 3]>,
    perm: Seq<u32>,
    pass: u32,
)
    requires
        grid.wf(),
    ensures
        are_digits(digits_in_pass(grid, sim_cell, perm, pass)),
{
    let digits = digits_in_pass(grid, sim_cell, perm, pass);
    assert forall|k: int| 0 <= k < digits.len() implies 0 <= #[trigger] digits[k] < 256 by {
        law_cell_of_in_grid(grid, sim_cell[perm[k] as int]);
        lemma_low_digits_split(cell_at(grid, sim_cell, perm, k), pass as nat);
    }
}

/// A radix pass keeps a permutation of the particles one, and sorts it by one digit more.
proof fn lemma_pass_extends_sort<S>(
    grid: CollGridUniform<S>,
    sim_cell: Seq<[i32; 3]>,
    input: Seq<u32>,
    stale: Seq<u32>,
    pass: u32,
)
    requires
        grid.wf(),
        input.len() <= u32::MAX,
        stale.len() == input.len(),
        lists_all(input, input.len() as int),
        sorted_by_low_digits(grid, sim_cell, input, pass as nat),
    ensures
        ({
            let out = scatter_after(
                digits_in_pass(grid, sim_cell, input, pass),
                input,
                stale,
                input.len() as int,
            );
            &&& lists_all(out, input.len() as int)
            &&& sorted_by_low_digits(grid, sim_cell, out, (pass + 1) as nat)
        }),
{
    let n = input.len() as int;
    let digits = digits_in_pass(grid, sim_cell, input, pass);
    let out = scatter_after(digits, input, stale, n);
    let b = pow256(pass as nat) as int;
    lemma_pass_digits(grid, sim_cell, input, pass);
    law_radix_pass_sorts(digits, input, stale, n);
    assert forall|a: int| 0 <= a < n implies #[trigger] out[a] < n by {
        let m = law_every_place_is_taken(digits, a);
        assert(out[place(digits, m)] == input[m]);
    }
    assert forall|a: int, c: int| 0 <= a < n && 0 <= c < n && a != c implies out[a] != out[c] by {
        let m = law_every_place_is_taken(digits, a);
        let l = law_every_place_is_taken(digits, c);
        assert(out[place(digits, m)] == input[m]);
        assert(out[place(digits, l)] == input[l]);
    }
    assert forall|j: u32| j < n implies #[trigger] out.contains(j) by {
        assert(input.contains(j));
        let k = choose|k: int| 0 <= k < n && #[trigger] input[k] == j;
        law_place_is_stable_order(digits, k, k);
        assert(out[place(digits, k)] == j);
    }
    assert forall|a: int, c: int| 0 <= a < c < n implies {
        let ca = #[trigger] cell_at(grid, sim_cell, out, a) % (pow256((pass + 1) as nat) as int);
        let cc = #[trigger] cell_at(grid, sim_cell, out, c) % (pow256((pass + 1) as nat) as int);
        ca < cc || ca == cc && out[a] < out[c]
    } by {
        let m = law_every_place_is_taken(digits, a);
        let l = law_every_place_is_taken(digits, c);
        assert(out[place(digits, m)] == input[m]);
        assert(out[place(digits, l)] == input[l]);
        law_place_is_stable_order(digits, m, l);
        let cm = cell_at(grid, sim_cell, input, m);
        let cl = cell_at(grid, sim_cell, input, l);
        law_cell_of_in_grid(grid, sim_cell[input[m] as int]);
        law_cell_of_in_grid(grid, sim_cell[input[l] as int]);
        lemma_low_digits_split(cm, pass as nat);
        lemma_low_digits_split(cl, pass as nat);
        lemma_digit_order(digits[m], cm % b, digits[l], cl % b, b);
        assert(pass as nat + 1 == (pass + 1) as nat);
    }
}

/// One radix pass over a permutation of the particles gives a permutation of them in the order of its
/// digit, in whatever order its invocations run.
pub proof fn law_radix_pass_sorts_in_any_order<S>(
    grid: CollGridUniform<S>,
    sim_cell: Seq<[i32; 3]>,
    input: Seq<u32>,
    stale: Seq<u32>,
    pass: u32,
    counted: Seq<u32>,
    order: Seq<u32>,
)
    requires
        grid.wf(),
        input.len() <= u32::MAX,
        stale.len() == input.len(),
        lists_all(input, input.len() as int),
        lists_all(counted, input.len() as int),
        lists_all(order, input.len() as int),
    ensures
        ({
            let out = scatter_along(
                digits_in_pass(grid, sim_cell, input, pass),
                input,
                stale,
                counted,
                order,
                input.len() as int,
            );
            &&& lists_all(out, input.len() as int)
            &&& forall|a: int, c: int|
                0 <= a < c < out.len() ==> #[trigger] place_digit(grid, sim_cell, out, pass, a)
                    <= #[trigger] place_digit(grid, sim_cell, out, pass, c)
        }),
{
    let n = input.len() as int;
    let digits = digits_in_pass(grid, sim_cell, input, pass);
    let listed = along(digits, order);
    let out = scatter_along(digits, input, stale, counted, order, n);
    lemma_pass_digits(grid, sim_cell, input, pass);
    law_radix_pass_in_any_order(digits, input, stale, counted, order, n);
    assert forall|a: int| 0 <= a < n implies #[trigger] out[a] < n by {
        let x = law_every_place_is_taken(listed, a);
        assert(out[place(listed, x)] == input[order[x] as int]);
        assert(order[x] < n);
    }
    assert forall|a: int, c: int| 0 <= a < n && 0 <= c < n && a != c implies out[a] != out[c] by {
        let x = law_every_place_is_taken(listed, a);
        let y = law_every_place_is_taken(listed, c);
        assert(out[place(listed, x)] == input[order[x] as int]);
        assert(out[place(listed, y)] == input[order[y] as int]);
        assert(order[x] < n && order[y] < n);
    }
    assert forall|j: u32| j < n implies #[trigger] out.contains(j) by {
        assert(input.contains(j));
        let k = choose|k: int| 0 <= k < n && #[trigger] input[k] == j;
        assert(order.contains(k as u32));
        let x = choose|x: int| 0 <= x < n && #[trigger] order[x] == k as u32;
        law_place_is_stable_order(listed, x, x);
        assert(out[place(listed, x)] == j);
    }
    assert forall|a: int, c: int| 0 <= a < c < n implies #[trigger] place_digit(
        grid,
        sim_cell,
        out,
        pass,
        a,
    ) <= #[trigger] place_digit(grid, sim_cell, out, pass, c) by {
        let x = law_every_place_is_taken(listed, a);
        let y = law_every_place_is_taken(listed, c);
        assert(out[place(listed, x)] == input[order[x] as int]);
        assert(out[place(listed, y)] == input[order[y] as int]);
        assert(order[x] < n && order[y] < n);
        law_place_is_stable_order(listed, x, y);
        assert(listed[x] == place_digit(grid, sim_cell, out, pass, a));
        assert(listed[y] == place_digit(grid, sim_cell, out, pass, c));
    }
}

/// After each number of radix passes, the invocations of each in ascending order, the current buffer
/// lists every particle once, in the order of that many low digits of the cells.
pub proof fn law_radix_passes_sort<S>(
    grid: CollGridUniform<S>,
    sim_cell: Seq<[i32; 3]>,
    pong: Seq<u32>,
    passes: u32,
)
    requires
        grid.wf(),
        pong.len() <= u32::MAX,
    ensures
        ({
            let (a, b) = radix_state(grid, sim_cell, identity_perm(pong.len()), pong, passes);
            &&& a.len() == pong.len()
            &&& b.len() == pong.len()
            &&& lists_all(sorted_perm(a, b, passes), pong.len() as int)
            &&& sorted_by_low_digits(grid, sim_cell, sorted_perm(a, b, passes), passes as nat)
        }),
    decreases passes,
{
    let n = pong.len();
    let ping = identity_perm(n);
    if passes == 0 {
        assert forall|j: u32| j < n implies #[trigger] ping.contains(j) by {
            assert(ping[j as int] == j);
        }
        assert(pow256(0) == 1);
    } else {
        let pass = (passes - 1) as u32;
        law_radix_passes_sort(grid, sim_cell, pong, pass);
        let (a, b) = radix_state(grid, sim_cell, ping, pong, pass);
        let input = pass_input(a, b, pass);
        let stale = pass_input(b, a, pass);
        lemma_pass_extends_sort(grid, sim_cell, input, stale, pass);
        let out = scatter_after(
            digits_in_pass(grid, sim_cell, input, pass),
            input,
            stale,
            n as int,
        );
        let (a2, b2) = radix_state(grid, sim_cell, ping, pong, passes);
        assert(sorted_perm(a2, b2, passes) == out);
        assert((pass + 1) as nat == passes as nat);
    }
}

/// With a digit pass for every digit of the largest cell, the passes sort the particles by cell, where
/// the invocations of each run in ascending order.
pub proof fn law_radix_sort_by_cell<S>(
    grid: CollGridUniform<S>,
    sim_cell: Seq<[i32; 3]>,
    pong: Seq<u32>,
)
    requires
        grid.wf(),
        pong.len() <= u32::MAX,
        grid.num_cells <= pow256(grid.radix_digits as nat),
    ensures
        ({
            let (a, b) = radix_state(
                grid,
                sim_cell,
                identity_perm(pong.len()),
                pong,
                grid.radix_digits,
            );
            let perm = sorted_perm(a, b, grid.radix_digits);
            lists_all(perm, pong.len() as int) && sorted_by_cell(grid, sim_cell, perm)
        }),
{
    let r = grid.radix_digits;
    law_radix_passes_sort(grid, sim_cell, pong, r);
    let (a, b) = radix_state(grid, sim_cell, identity_perm(pong.len()), pong, r);
    let perm = sorted_perm(a, b, r);
    assert forall|k: int, l: int| 0 <= k < l < perm.len() implies {
        let ck = #[trigger] cell_at(grid, sim_cell, perm, k);
        let cl = #[trigger] cell_at(grid, sim_cell, perm, l);
        ck < cl || ck == cl && perm[k] < perm[l]
    } by {
        let ck = cell_at(grid, sim_cell, perm, k);
        let cl = cell_at(grid, sim_cell, perm, l);
        law_cell_of_in_grid(grid, sim_cell[perm[k] as int]);
        law_cell_of_in_grid(grid, sim_cell[perm[l] as int]);
        lemma_small_mod(ck as nat, pow256(r as nat));
        lemma_small_mod(cl as nat, pow256(r as nat));
    }
}

/// `perm` is in the order of the cells; the particles of one cell may be in any order.
pub open spec fn cells_ascend<S>(
    grid: CollGridUniform<S>,
    sim_cell: Seq<[i32; 3]>,
    perm: Seq<u32>,
) -> bool {
    forall|k: int, l: int|
        0 <= k <= l < perm.len() ==> #[trigger] cell_at(grid, sim_cell, perm, k)
            <= #[trigger] cell_at(grid, sim_cell, perm, l)
}

/// The table of range starts after the first `k` invocations that `order` lists, from a cleared one.
pub open spec fn starts_after<S>(
    grid: CollGridUniform<S>,
    sim_cell: Seq<[i32; 3]>,
    perm: Seq<u32>,
    order: Seq<u32>,
    k: int,
) -> Seq<u32>
    decreases k,
{
    if k <= 0 {
        Seq::new(grid.num_cells as nat, |c: int| EMPTY_CELL)
    } else {
        start_step(
            grid,
            sim_cell,
            perm,
            starts_after(grid, sim_cell, perm, order, k - 1),
            order[k - 1],
        )
    }
}

/// The table of range ends after the first `k` invocations that `order` lists, from a cleared one.
pub open spec fn ends_after<S>(
    grid: CollGridUniform<S>,
    sim_cell: Seq<[i32; 3]>,
    perm: Seq<u32>,
    order: Seq<u32>,
    k: int,
) -> Seq<u32>
    decreases k,
{
    if k <= 0 {
        Seq::new(grid.num_cells as nat, |c: int| 0u32)
    } else {
        end_step(
            grid,
            sim_cell,
            perm,
            ends_after(grid, sim_cell, perm, order, k - 1),
            order[k - 1],
        )
    }
}

/// `start` gives the first place of each cell, and marks the cells without a place.
#[verifier::opaque]
spec fn starts_right<S>(
    grid: CollGridUniform<S>,
    sim_cell: Seq<[i32; 3]>,
    perm: Seq<u32>,
    start: Seq<u32>,
) -> bool {
    &&& start.len() == grid.num_cells
    &&& forall|c: int|
        0 <= c < grid.num_cells && #[trigger] start[c] != EMPTY_CELL ==> start[c] < perm.len()
            && cell_at(grid, sim_cell, perm, start[c] as int) == c
    &&& forall|m: int|
        0 <= m < perm.len() ==> {
            let c = #[trigger] cell_at(grid, sim_cell, perm, m);
            start[c] != EMPTY_CELL && start[c] <= m
        }
}

/// `end` is past the last place of each cell, and zero for the cells without a place.
#[verifier::opaque]
spec fn ends_right<S>(
    grid: CollGridUniform<S>,
    sim_cell: Seq<[i32; 3]>,
    perm: Seq<u32>,
    end: Seq<u32>,
) -> bool {
    &&& end.len() == grid.num_cells
    &&& forall|c: int|
        0 <= c < grid.num_cells && #[trigger] end[c] != 0 ==> end[c] <= perm.len() && cell_at(
            grid,
            sim_cell,
            perm,
            end[c] - 1,
        ) == c
    &&& forall|m: int|
        0 <= m < perm.len() && run_ends(grid, sim_cell, perm, m) ==> end[#[trigger] cell_at(
            grid,
            sim_cell,
            perm,
            m,
        )] == m + 1
}

proof fn lemma_cell_at_in_grid<S>(
    grid: CollGridUniform<S>,
    sim_cell: Seq<[i32; 3]>,
    perm: Seq<u32>,
    k: int,
)
    requires
        grid.wf(),
    ensures
        0 <= cell_at(grid, sim_cell, perm, k) < grid.num_cells,
{
    law_cell_of_in_grid(grid, sim_cell[perm[k] as int]);
}

/// A cell has one place where its run begins, and one where it ends.
proof fn lemma_one_run<S>(
    grid: CollGridUniform<S>,
    sim_cell: Seq<[i32; 3]>,
    perm: Seq<u32>,
    a: int,
    b: int,
)
    requires
        grid.num_particles == perm.len(),
        cells_ascend(grid, sim_cell, perm),
        0 <= a < perm.len(),
        0 <= b < perm.len(),
        cell_at(grid, sim_cell, perm, a) == cell_at(grid, sim_cell, perm, b),
    ensures
        run_starts(grid, sim_cell, perm, a) && run_starts(grid, sim_cell, perm, b) ==> a == b,
        run_ends(grid, sim_cell, perm, a) && run_ends(grid, sim_cell, perm, b) ==> a == b,
{
    let (x, y) = if a <= b {
        (a, b)
    } else {
        (b, a)
    };
    if x < y {
        assert(cell_at(grid, sim_cell, perm, x) <= cell_at(grid, sim_cell, perm, y - 1));
        assert(cell_at(grid, sim_cell, perm, y - 1) <= cell_at(grid, sim_cell, perm, y));
        assert(cell_at(grid, sim_cell, perm, x) <= cell_at(grid, sim_cell, perm, x + 1));
        assert(cell_at(grid, sim_cell, perm, x + 1) <= cell_at(grid, sim_cell, perm, y));
    }
}

/// What the table of range starts holds after the first `k` invocations that `order` lists.
proof fn lemma_starts_so_far<S>(
    grid: CollGridUniform<S>,
    sim_cell: Seq<[i32; 3]>,
    perm: Seq<u32>,
    order: Seq<u32>,
    k: int,
)
    requires
        grid.wf(),
        grid.num_particles == perm.len(),
        cells_ascend(grid, sim_cell, perm),
        lists_all(order, perm.len() as int),
        0 <= k <= perm.len(),
    ensures
        ({
            let start = starts_after(grid, sim_cell, perm, order, k);
            &&& start.len() == grid.num_cells
            &&& forall|c: int|
                0 <= c < grid.num_cells && #[trigger] start[c] != EMPTY_CELL ==> start[c]
                    < perm.len() && cell_at(grid, sim_cell, perm, start[c] as int) == c
            &&& forall|x: int|
                0 <= x < k && run_starts(grid, sim_cell, perm, #[trigger] order[x] as int)
                    ==> start[cell_at(grid, sim_cell, perm, order[x] as int)] == order[x]
        }),
    decreases k,
{
    if k > 0 {
        let before = starts_after(grid, sim_cell, perm, order, k - 1);
        let start = starts_after(grid, sim_cell, perm, order, k);
        lemma_starts_so_far(grid, sim_cell, perm, order, k - 1);
        let q = order[k - 1] as int;
        assert(q < perm.len());
        lemma_cell_at_in_grid(grid, sim_cell, perm, q);
        assert forall|x: int|
            0 <= x < k && run_starts(grid, sim_cell, perm, #[trigger] order[x] as int) implies start[
        cell_at(grid, sim_cell, perm, order[x] as int)] == order[x] by {
            let p = order[x] as int;
            assert(p < perm.len());
            lemma_cell_at_in_grid(grid, sim_cell, perm, p);
            if x < k - 1 {
                assert(before[cell_at(grid, sim_cell, perm, p)] == order[x]);
                if cell_at(grid, sim_cell, perm, p) == cell_at(grid, sim_cell, perm, q) {
                    lemma_one_run(grid, sim_cell, perm, p, q);
                }
            }
        }
    }
}

/// What the table of range ends holds after the first `k` invocations that `order` lists.
proof fn lemma_ends_so_far<S>(
    grid: CollGridUniform<S>,
    sim_cell: Seq<[i32; 3]>,
    perm: Seq<u32>,
    order: Seq<u32>,
    k: int,
)
    requires
        grid.wf(),
        grid.num_particles == perm.len(),
        cells_ascend(grid, sim_cell, perm),
        lists_all(order, perm.len() as int),
        0 <= k <= perm.len(),
    ensures
        ({
            let end = ends_after(grid, sim_cell, perm, order, k);
            &&& end.len() == grid.num_cells
            &&& forall|c: int|
                0 <= c < grid.num_cells && #[trigger] end[c] != 0 ==> end[c] <= perm.len()
                    && cell_at(grid, sim_cell, perm, end[c] - 1) == c
            &&& forall|x: int|
                0 <= x < k && run_ends(grid, sim_cell, perm, #[trigger] order[x] as int) ==> end[
                cell_at(grid, sim_cell, perm, order[x] as int)] == order[x] + 1
        }),
    decreases k,
{
    if k > 0 {
        let before = ends_after(grid, sim_cell, perm, order, k - 1);
        let end = ends_after(grid, sim_cell, perm, order, k);
        lemma_ends_so_far(grid, sim_cell, perm, order, k - 1);
        let q = order[k - 1] as int;
        assert(q < perm.len());
        lemma_cell_at_in_grid(grid, sim_cell, perm, q);
        assert forall|x: int|
            0 <= x < k && run_ends(grid, sim_cell, perm, #[trigger] order[x] as int) implies end[
        cell_at(grid, sim_cell, perm, order[x] as int)] == order[x] + 1 by {
            let p = order[x] as int;
            assert(p < perm.len());
            lemma_cell_at_in_grid(grid, sim_cell, perm, p);
            if x < k - 1 {
                assert(before[cell_at(grid, sim_cell, perm, p)] == order[x] + 1);
                if cell_at(grid, sim_cell, perm, p) == cell_at(grid, sim_cell, perm, q) {
                    lemma_one_run(grid, sim_cell, perm, p, q);
                }
            }
        }
    }
}

/// The first place of the run that place `m` belongs to.
proof fn lemma_run_start_of<S>(
    grid: CollGridUniform<S>,
    sim_cell: Seq<[i32; 3]>,
    perm: Seq<u32>,
    m: int,
) -> (s: int)
    requires
        0 <= m < perm.len(),
    ensures
        0 <= s <= m,
        run_starts(grid, sim_cell, perm, s),
        cell_at(grid, sim_cell, perm, s) == cell_at(grid, sim_cell, perm, m),
    decreases m,
{
    if run_starts(grid, sim_cell, perm, m) {
        m
    } else {
        lemma_run_start_of(grid, sim_cell, perm, m - 1)
    }
}

proof fn lemma_starts<S>(
    grid: CollGridUniform<S>,
    sim_cell: Seq<[i32; 3]>,
    perm: Seq<u32>,
    order: Seq<u32>,
)
    requires
        grid.wf(),
        grid.num_particles == perm.len(),
        cells_ascend(grid, sim_cell, perm),
        lists_all(order, perm.len() as int),
    ensures
        starts_right(
            grid,
            sim_cell,
            perm,
            starts_after(grid, sim_cell, perm, order, perm.len() as int),
        ),
{
    let n = perm.len() as int;
    let start = starts_after(grid, sim_cell, perm, order, n);
    lemma_starts_so_far(grid, sim_cell, perm, order, n);
    assert forall|m: int| 0 <= m < n implies {
        let c = #[trigger] cell_at(grid, sim_cell, perm, m);
        start[c] != EMPTY_CELL && start[c] <= m
    } by {
        let s = lemma_run_start_of(grid, sim_cell, perm, m);
        assert(order.contains(s as u32));
        let x = choose|x: int| 0 <= x < n && #[trigger] order[x] == s as u32;
        assert(run_starts(grid, sim_cell, perm, order[x] as int));
    }
    reveal(starts_right);
}

proof fn lemma_ends<S>(
    grid: CollGridUniform<S>,
    sim_cell: Seq<[i32; 3]>,
    perm: Seq<u32>,
    order: Seq<u32>,
)
    requires
        grid.wf(),
        grid.num_particles == perm.len(),
        cells_ascend(grid, sim_cell, perm),
        lists_all(order, perm.len() as int),
    ensures
        ends_right(
            grid,
            sim_cell,
            perm,
            ends_after(grid, sim_cell, perm, order, perm.len() as int),
        ),
{
    let n = perm.len() as int;
    let end = ends_after(grid, sim_cell, perm, order, n);
    lemma_ends_so_far(grid, sim_cell, perm, order, n);
    assert forall|m: int| 0 <= m < n && run_ends(grid, sim_cell, perm, m) implies end[
    #[trigger] cell_at(grid, sim_cell, perm, m)] == m + 1 by {
        assert(order.contains(m as u32));
        let x = choose|x: int| 0 <= x < n && #[trigger] order[x] == m as u32;
        assert(run_ends(grid, sim_cell, perm, order[x] as int));
    }
    reveal(ends_right);
}

/// The last place of the run that place `m` belongs to.
proof fn lemma_run_end_of<S>(
    grid: CollGridUniform<S>,
    sim_cell: Seq<[i32; 3]>,
    perm: Seq<u32>,
    m: int,
) -> (e: int)
    requires
        grid.num_particles == perm.len(),
        0 <= m < perm.len(),
    ensures
        m <= e < perm.len(),
        run_ends(grid, sim_cell, perm, e),
        cell_at(grid, sim_cell, perm, e) == cell_at(grid, sim_cell, perm, m),
    decreases perm.len() - m,
{
    if run_ends(grid, sim_cell, perm, m) {
        m
    } else {
        lemma_run_end_of(grid, sim_cell, perm, m + 1)
    }
}

/// `start` and `end` give, for every cell, the range of the places of its particles. A cell without
/// particles is marked as empty, and its end is zero.
pub open spec fn ranges_right<S>(
    grid: CollGridUniform<S>,
    sim_cell: Seq<[i32; 3]>,
    perm: Seq<u32>,
    start: Seq<u32>,
    end: Seq<u32>,
) -> bool {
    &&& start.len() == grid.num_cells
    &&& end.len() == grid.num_cells
    &&& forall|c: int|
        0 <= c < grid.num_cells && #[trigger] start[c] != EMPTY_CELL ==> start[c] < end[c]
            <= perm.len()
    &&& forall|c: int|
        0 <= c < grid.num_cells && start[c] == EMPTY_CELL ==> #[trigger] end[c] == 0
    &&& forall|c: int, m: int|
        0 <= c < grid.num_cells && 0 <= m < perm.len() ==> {
            #[trigger] cell_at(grid, sim_cell, perm, m) == c <==> (#[trigger] start[c] != EMPTY_CELL
                && start[c] <= m < end[c])
        }
}

proof fn lemma_start_of_cell<S>(
    grid: CollGridUniform<S>,
    sim_cell: Seq<[i32; 3]>,
    perm: Seq<u32>,
    start: Seq<u32>,
    c: int,
)
    requires
        starts_right(grid, sim_cell, perm, start),
        0 <= c < grid.num_cells,
    ensures
        start.len() == grid.num_cells,
        start[c] != EMPTY_CELL ==> start[c] < perm.len() && cell_at(
            grid,
            sim_cell,
            perm,
            start[c] as int,
        ) == c,
{
    reveal(starts_right);
}

proof fn lemma_start_before<S>(
    grid: CollGridUniform<S>,
    sim_cell: Seq<[i32; 3]>,
    perm: Seq<u32>,
    start: Seq<u32>,
    m: int,
)
    requires
        starts_right(grid, sim_cell, perm, start),
        0 <= m < perm.len(),
    ensures
        start[cell_at(grid, sim_cell, perm, m)] != EMPTY_CELL,
        start[cell_at(grid, sim_cell, perm, m)] <= m,
{
    reveal(starts_right);
}

proof fn lemma_end_of_cell<S>(
    grid: CollGridUniform<S>,
    sim_cell: Seq<[i32; 3]>,
    perm: Seq<u32>,
    end: Seq<u32>,
    c: int,
)
    requires
        ends_right(grid, sim_cell, perm, end),
        0 <= c < grid.num_cells,
    ensures
        end.len() == grid.num_cells,
        end[c] != 0 ==> end[c] <= perm.len() && cell_at(grid, sim_cell, perm, end[c] - 1) == c,
{
    reveal(ends_right);
}

proof fn lemma_end_after<S>(
    grid: CollGridUniform<S>,
    sim_cell: Seq<[i32; 3]>,
    perm: Seq<u32>,
    end: Seq<u32>,
    m: int,
)
    requires
        grid.num_particles == perm.len(),
        ends_right(grid, sim_cell, perm, end),
        0 <= m < perm.len(),
    ensures
        end[cell_at(grid, sim_cell, perm, m)] > m,
{
    let e = lemma_run_end_of(grid, sim_cell, perm, m);
    reveal(ends_right);
    assert(end[cell_at(grid, sim_cell, perm, e)] == e + 1);
}

/// Place `m` is of cell `c` exactly where it is in the range of the cell.
proof fn lemma_place_in_range<S>(
    grid: CollGridUniform<S>,
    sim_cell: Seq<[i32; 3]>,
    perm: Seq<u32>,
    start: Seq<u32>,
    end: Seq<u32>,
    c: int,
    m: int,
)
    requires
        grid.num_particles == perm.len(),
        cells_ascend(grid, sim_cell, perm),
        starts_right(grid, sim_cell, perm, start),
        ends_right(grid, sim_cell, perm, end),
        0 <= c < grid.num_cells,
        0 <= m < perm.len(),
    ensures
        cell_at(grid, sim_cell, perm, m) == c <==> (start[c] != EMPTY_CELL && start[c] <= m
            < end[c]),
{
    if cell_at(grid, sim_cell, perm, m) == c {
        lemma_start_before(grid, sim_cell, perm, start, m);
        lemma_end_after(grid, sim_cell, perm, end, m);
    }
    if start[c] != EMPTY_CELL && start[c] <= m < end[c] {
        lemma_start_of_cell(grid, sim_cell, perm, start, c);
        lemma_end_of_cell(grid, sim_cell, perm, end, c);
        let here = cell_at(grid, sim_cell, perm, m);
        assert(cell_at(grid, sim_cell, perm, start[c] as int) <= here);
        assert(here <= cell_at(grid, sim_cell, perm, end[c] - 1));
    }
}

/// Over particles in the order of their cells, the range kernel records for every cell exactly the
/// places of its particles, and marks the cells without particles as empty. Its invocations may run
/// in any order, and the particles of one cell may be listed in any.
pub proof fn law_cell_ranges<S>(
    grid: CollGridUniform<S>,
    sim_cell: Seq<[i32; 3]>,
    perm: Seq<u32>,
    order: Seq<u32>,
)
    requires
        grid.wf(),
        grid.num_particles == perm.len(),
        cells_ascend(grid, sim_cell, perm),
        lists_all(order, perm.len() as int),
    ensures
        ranges_right(
            grid,
            sim_cell,
            perm,
            starts_after(grid, sim_cell, perm, order, perm.len() as int),
            ends_after(grid, sim_cell, perm, order, perm.len() as int),
        ),
{
    let n = perm.len() as int;
    lemma_starts(grid, sim_cell, perm, order);
    lemma_ends(grid, sim_cell, perm, order);
    lemma_ranges(
        grid,
        sim_cell,
        perm,
        starts_after(grid, sim_cell, perm, order, n),
        ends_after(grid, sim_cell, perm, order, n),
    );
}

proof fn lemma_ranges<S>(
    grid: CollGridUniform<S>,
    sim_cell: Seq<[i32; 3]>,
    perm: Seq<u32>,
    start: Seq<u32>,
    end: Seq<u32>,
)
    requires
        grid.num_particles == perm.len(),
        cells_ascend(grid, sim_cell, perm),
        starts_right(grid, sim_cell, perm, start),
        ends_right(grid, sim_cell, perm, end),
    ensures
        ranges_right(grid, sim_cell, perm, start, end),
{
    assert(start.len() == grid.num_cells && end.len() == grid.num_cells) by {
        reveal(starts_right);
        reveal(ends_right);
    }
    assert forall|c: int| 0 <= c < grid.num_cells && #[trigger] start[c] != EMPTY_CELL implies start[c]
        < end[c] <= perm.len() by {
        lemma_start_of_cell(grid, sim_cell, perm, start, c);
        lemma_end_of_cell(grid, sim_cell, perm, end, c);
        lemma_end_after(grid, sim_cell, perm, end, start[c] as int);
    }
    assert forall|c: int| 0 <= c < grid.num_cells && start[c] == EMPTY_CELL implies #[trigger] end[c]
        == 0 by {
        lemma_end_of_cell(grid, sim_cell, perm, end, c);
        if end[c] != 0 {
            lemma_start_before(grid, sim_cell, perm, start, end[c] - 1);
        }
    }
    assert forall|c: int, m: int| 0 <= c < grid.num_cells && 0 <= m < perm.len() implies {
        #[trigger] cell_at(grid, sim_cell, perm, m) == c <==> (#[trigger] start[c] != EMPTY_CELL
            && start[c] <= m < end[c])
    } by {
        lemma_place_in_range(grid, sim_cell, perm, start, end, c, m);
    }
}

/// The cells `a` and `b` are the same or touch: no coordinate differs by more than one.
pub open spec fn adjacent<S>(grid: CollGridUniform<S>, a: int, b: int) -> bool {
    let gx = grid.gx as int;
    let gy = grid.gy as int;
    &&& -1 <= cell_x(gx, gy, b) - cell_x(gx, gy, a) <= 1
    &&& -1 <= cell_y(gx, gy, b) - cell_y(gx, gy, a) <= 1
    &&& -1 <= cell_z(gx, gy, b) - cell_z(gx, gy, a) <= 1
}

proof fn lemma_range_partners(perm: Seq<u32>, s: int, e: int, i: int)
    requires
        0 <= s,
        e <= perm.len(),
        forall|k: int, l: int|
            0 <= k < perm.len() && 0 <= l < perm.len() && k != l ==> perm[k] != perm[l],
    ensures
        range_partners(perm, s, e, i).no_duplicates(),
        forall|j: u32| #[trigger]
            range_partners(perm, s, e, i).contains(j) <==> j > i && exists|m: int|
                s <= m < e && perm[m] == j,
    decreases e - s,
{
    if e > s {
        lemma_range_partners(perm, s, e - 1, i);
        let rest = range_partners(perm, s, e - 1, i);
        let all = range_partners(perm, s, e, i);
        let x = perm[e - 1];
        if x > i {
            assert(!rest.contains(x));
            assert forall|j: u32| #[trigger]
                all.contains(j) <==> j > i && exists|m: int| s <= m < e && perm[m] == j by {
                if all.contains(j) {
                    let q = choose|q: int| 0 <= q < all.len() && all[q] == j;
                    if q < rest.len() {
                        assert(rest[q] == j);
                        assert(rest.contains(j));
                    } else {
                        assert(perm[e - 1] == j);
                    }
                }
                if j > i && exists|m: int| s <= m < e && perm[m] == j {
                    let m = choose|m: int| s <= m < e && perm[m] == j;
                    if m < e - 1 {
                        assert(rest.contains(j));
                        let q = choose|q: int| 0 <= q < rest.len() && rest[q] == j;
                        assert(all[q] == j);
                    } else {
                        assert(all[rest.len() as int] == j);
                    }
                }
            }
            assert forall|p: int, q: int|
                0 <= p < all.len() && 0 <= q < all.len() && p != q implies all[p] != all[q] by {
                if p == rest.len() {
                    assert(rest[q] == all[q]);
                    assert(rest.contains(rest[q]));
                } else if q == rest.len() {
                    assert(rest[p] == all[p]);
                    assert(rest.contains(rest[p]));
                } else {
                    assert(rest[p] == all[p] && rest[q] == all[q]);
                }
            }
        }
    }
}

/// Particle `j` is a partner of `i` that the first `k` visited cells yield.
spec fn wanted<S>(
    grid: CollGridUniform<S>,
    sim_cell: Seq<[i32; 3]>,
    n: int,
    cell: int,
    i: int,
    k: int,
    j: u32,
) -> bool {
    &&& i < j < n
    &&& exists|q: int|
        0 <= q < k && #[trigger] neighbor_of(
            grid,
            cell,
            offset_of(q).0,
            offset_of(q).1,
            offset_of(q).2,
        ) == cell_of(grid, sim_cell[j as int])
}

/// Different offsets lead to different cells.
proof fn lemma_offsets_differ<S>(grid: CollGridUniform<S>, cell: int, p: int, q: int)
    requires
        grid.wf(),
        0 <= cell < grid.num_cells,
        0 <= p < q < 27,
    ensures
        ({
            let a = neighbor_of(grid, cell, offset_of(p).0, offset_of(p).1, offset_of(p).2);
            let b = neighbor_of(grid, cell, offset_of(q).0, offset_of(q).1, offset_of(q).2);
            a == b ==> a == grid.num_cells
        }),
{
    law_neighbor_shifts_coords(grid, cell, offset_of(p).0, offset_of(p).1, offset_of(p).2);
    law_neighbor_shifts_coords(grid, cell, offset_of(q).0, offset_of(q).1, offset_of(q).2);
    assert(p == p % 3 + 3 * ((p / 3) % 3) + 9 * (p / 9));
    assert(q == q % 3 + 3 * ((q / 3) % 3) + 9 * (q / 9));
}

proof fn lemma_partners<S>(
    grid: CollGridUniform<S>,
    sim_cell: Seq<[i32; 3]>,
    perm: Seq<u32>,
    start: Seq<u32>,
    end: Seq<u32>,
    cell: int,
    i: int,
    k: int,
)
    requires
        grid.wf(),
        0 <= cell < grid.num_cells,
        lists_all(perm, perm.len() as int),
        ranges_right(grid, sim_cell, perm, start, end),
        0 <= k <= 27,
    ensures
        partners(grid, start, end, perm, cell, i, k).no_duplicates(),
        forall|j: u32| #[trigger]
            partners(grid, start, end, perm, cell, i, k).contains(j) <==> wanted(
                grid,
                sim_cell,
                perm.len() as int,
                cell,
                i,
                k,
                j,
            ),
    decreases k,
{
    let n = perm.len() as int;
    if k > 0 {
        lemma_partners(grid, sim_cell, perm, start, end, cell, i, k - 1);
        let rest = partners(grid, start, end, perm, cell, i, k - 1);
        let (dx, dy, dz) = offset_of(k - 1);
        let nf = neighbor_of(grid, cell, dx, dy, dz);
        let more = cell_partners(start, end, perm, grid.num_cells, nf, i);
        let all = partners(grid, start, end, perm, cell, i, k);
        law_neighbor_shifts_coords(grid, cell, dx, dy, dz);
        if nf < grid.num_cells && start[nf] != EMPTY_CELL {
            lemma_range_partners(perm, start[nf] as int, end[nf] as int, i);
        }
        assert forall|j: u32| #[trigger] more.contains(j) <==> (i < j < n && cell_of(
            grid,
            sim_cell[j as int],
        ) == nf) by {
            if i < j < n && cell_of(grid, sim_cell[j as int]) == nf {
                law_cell_of_in_grid(grid, sim_cell[j as int]);
                assert(perm.contains(j));
                let m = choose|m: int| 0 <= m < perm.len() && perm[m] == j;
                assert(cell_at(grid, sim_cell, perm, m) == nf);
                assert(start[nf] != EMPTY_CELL && start[nf] <= m < end[nf]);
            }
            if more.contains(j) {
                let m = choose|m: int| start[nf] <= m < end[nf] && perm[m] == j;
                assert(cell_at(grid, sim_cell, perm, m) == nf);
            }
        }
        assert forall|j: u32| rest.contains(j) implies !more.contains(j) by {
            if more.contains(j) {
                let q = choose|q: int|
                    0 <= q < k - 1 && #[trigger] neighbor_of(
                        grid,
                        cell,
                        offset_of(q).0,
                        offset_of(q).1,
                        offset_of(q).2,
                    ) == cell_of(grid, sim_cell[j as int]);
                lemma_offsets_differ(grid, cell, q, k - 1);
                law_cell_of_in_grid(grid, sim_cell[j as int]);
            }
        }
        assert forall|j: u32| #[trigger]
            all.contains(j) <==> wanted(grid, sim_cell, n, cell, i, k, j) by {
            if all.contains(j) {
                let q = choose|q: int| 0 <= q < all.len() && all[q] == j;
                if q < rest.len() {
                    assert(rest[q] == j);
                    assert(rest.contains(j));
                } else {
                    assert(more[q - rest.len()] == j);
                    assert(more.contains(j));
                    assert(neighbor_of(
                        grid,
                        cell,
                        offset_of(k - 1).0,
                        offset_of(k - 1).1,
                        offset_of(k - 1).2,
                    ) == cell_of(grid, sim_cell[j as int]));
                }
            }
            if wanted(grid, sim_cell, n, cell, i, k, j) {
                let q = choose|q: int|
                    0 <= q < k && #[trigger] neighbor_of(
                        grid,
                        cell,
                        offset_of(q).0,
                        offset_of(q).1,
                        offset_of(q).2,
                    ) == cell_of(grid, sim_cell[j as int]);
                if q < k - 1 {
                    assert(rest.contains(j));
                    let a = choose|a: int| 0 <= a < rest.len() && rest[a] == j;
                    assert(all[a] == j);
                } else {
                    assert(more.contains(j));
                    let a = choose|a: int| 0 <= a < more.len() && more[a] == j;
                    assert(all[rest.len() + a] == j);
                }
            }
        }
        assert forall|p: int, q: int|
            0 <= p < all.len() && 0 <= q < all.len() && p != q implies all[p] != all[q] by {
            if p < rest.len() && q < rest.len() {
                assert(rest[p] == all[p] && rest[q] == all[q]);
            } else if p >= rest.len() && q >= rest.len() {
                assert(more[p - rest.len()] == all[p] && more[q - rest.len()] == all[q]);
            } else if p < rest.len() {
                assert(rest.contains(rest[p]) && more.contains(more[q - rest.len()]));
            } else {
                assert(rest.contains(rest[q]) && more.contains(more[p - rest.len()]));
            }
        }
    }
}

/// A cell is adjacent to another exactly where one of the 27 offsets leads to it.
proof fn lemma_adjacent_by_offset<S>(grid: CollGridUniform<S>, a: int, b: int)
    requires
        grid.wf(),
        0 <= a < grid.num_cells,
        0 <= b < grid.num_cells,
    ensures
        adjacent(grid, a, b) <==> exists|q: int|
            0 <= q < 27 && #[trigger] neighbor_of(
                grid,
                a,
                offset_of(q).0,
                offset_of(q).1,
                offset_of(q).2,
            ) == b,
{
    let gx = grid.gx as int;
    let gy = grid.gy as int;
    law_cell_coords_in_grid(grid, a);
    law_cell_coords_in_grid(grid, b);
    if adjacent(grid, a, b) {
        let dx = cell_x(gx, gy, b) - cell_x(gx, gy, a);
        let dy = cell_y(gx, gy, b) - cell_y(gx, gy, a);
        let dz = cell_z(gx, gy, b) - cell_z(gx, gy, a);
        let q = (dx + 1) + 3 * (dy + 1) + 9 * (dz + 1);
        assert(offset_of(q) == (dx, dy, dz));
        law_neighbor_shifts_coords(grid, a, dx, dy, dz);
        law_cell_coords_in_grid(grid, neighbor_of(grid, a, dx, dy, dz));
        assert(neighbor_of(grid, a, offset_of(q).0, offset_of(q).1, offset_of(q).2) == b);
    }
    if exists|q: int|
        0 <= q < 27 && #[trigger] neighbor_of(
            grid,
            a,
            offset_of(q).0,
            offset_of(q).1,
            offset_of(q).2,
        ) == b {
        let q = choose|q: int|
            0 <= q < 27 && #[trigger] neighbor_of(
                grid,
                a,
                offset_of(q).0,
                offset_of(q).1,
                offset_of(q).2,
            ) == b;
        law_neighbor_shifts_coords(grid, a, offset_of(q).0, offset_of(q).1, offset_of(q).2);
    }
}

/// Over particles in the order of their cells, the narrow phase looks at particle `i` together with
/// exactly the particles after it in its own cell and the cells that touch it, each once, in whatever
/// order the invocations of the range kernel run.
pub proof fn law_adjacent_pairs_once<S>(
    grid: CollGridUniform<S>,
    sim_cell: Seq<[i32; 3]>,
    perm: Seq<u32>,
    order: Seq<u32>,
    i: int,
)
    requires
        grid.wf(),
        grid.num_particles == perm.len(),
        lists_all(perm, perm.len() as int),
        cells_ascend(grid, sim_cell, perm),
        lists_all(order, perm.len() as int),
        0 <= i < perm.len(),
    ensures
        looks_at_adjacent(
            grid,
            sim_cell,
            perm.len() as int,
            i,
            partners(
                grid,
                starts_after(grid, sim_cell, perm, order, perm.len() as int),
                ends_after(grid, sim_cell, perm, order, perm.len() as int),
                perm,
                cell_of(grid, sim_cell[i]),
                i,
                27,
            ),
        ),
{
    let n = perm.len() as int;
    law_cell_ranges(grid, sim_cell, perm, order);
    law_cell_of_in_grid(grid, sim_cell[i]);
    let start = starts_after(grid, sim_cell, perm, order, n);
    let end = ends_after(grid, sim_cell, perm, order, n);
    let cell = cell_of(grid, sim_cell[i]);
    lemma_partners(grid, sim_cell, perm, start, end, cell, i, 27);
    let js = partners(grid, start, end, perm, cell, i, 27);
    assert forall|j: u32| #[trigger] js.contains(j) <==> i < j < n && adjacent(
        grid,
        cell,
        cell_of(grid, sim_cell[j as int]),
    ) by {
        law_cell_of_in_grid(grid, sim_cell[j as int]);
        lemma_adjacent_by_offset(grid, cell, cell_of(grid, sim_cell[j as int]));
    }
}

/// `js` lists, each once, the particles among `n` that come after `i` and are in its cell or in one
/// that touches it.
pub open spec fn looks_at_adjacent<S>(
    grid: CollGridUniform<S>,
    sim_cell: Seq<[i32; 3]>,
    n: int,
    i: int,
    js: Seq<u32>,
) -> bool {
    &&& js.no_duplicates()
    &&& forall|j: u32| #[trigger]
        js.contains(j) <==> i < j < n && adjacent(
            grid,
            cell_of(grid, sim_cell[i]),
            cell_of(grid, sim_cell[j as int]),
        )
}

/// The collision dispatches of a substep, run one after the other, have the narrow phase look at
/// particle `i` together with exactly the particles after it in its own cell and the cells that
/// touch it, each once. The invocations of the radix passes run in ascending order, those of the
/// range kernel in any.
pub proof fn law_broad_phase_visits_adjacent_pairs_once<S>(
    grid: CollGridUniform<S>,
    sim_cell: Seq<[i32; 3]>,
    pong: Seq<u32>,
    order: Seq<u32>,
    i: int,
)
    requires
        grid.wf(),
        grid.num_particles == pong.len(),
        grid.num_cells <= pow256(grid.radix_digits as nat),
        lists_all(order, pong.len() as int),
        0 <= i < pong.len(),
    ensures
        ({
            let (a, b) = radix_state(
                grid,
                sim_cell,
                identity_perm(pong.len()),
                pong,
                grid.radix_digits,
            );
            let perm = sorted_perm(a, b, grid.radix_digits);
            looks_at_adjacent(
                grid,
                sim_cell,
                pong.len() as int,
                i,
                partners(
                    grid,
                    starts_after(grid, sim_cell, perm, order, pong.len() as int),
                    ends_after(grid, sim_cell, perm, order, pong.len() as int),
                    perm,
                    cell_of(grid, sim_cell[i]),
                    i,
                    27,
                ),
            )
        }),
{
    law_radix_sort_by_cell(grid, sim_cell, pong);
    let (a, b) = radix_state(grid, sim_cell, identity_perm(pong.len()), pong, grid.radix_digits);
    let perm = sorted_perm(a, b, grid.radix_digits);
    law_adjacent_pairs_once(grid, sim_cell, perm, order, i);
}

/// A number below 256 is its own lowest digit.
proof fn lemma_one_digit(f: int)
    requires
        0 <= f < 256,
    ensures
        digit_of(f, 0) == f,
{
    assert(pow256(0) == 1);
    assert(f / 1 == f);
    lemma_small_mod(f as nat, 256);
}

/// Where one radix pass is enough, the collision dispatches have the narrow phase look at each pair
/// of particles in touching cells once, in whatever order the invocations of any kernel run.
pub proof fn law_one_pass_visits_adjacent_pairs_once<S>(
    grid: CollGridUniform<S>,
    sim_cell: Seq<[i32; 3]>,
    pong: Seq<u32>,
    counted: Seq<u32>,
    scattered: Seq<u32>,
    order: Seq<u32>,
    i: int,
)
    requires
        grid.wf(),
        grid.num_particles == pong.len(),
        grid.num_cells <= 256,
        lists_all(counted, pong.len() as int),
        lists_all(scattered, pong.len() as int),
        lists_all(order, pong.len() as int),
        0 <= i < pong.len(),
    ensures
        ({
            let ping = identity_perm(pong.len());
            let perm = scatter_along(
                digits_in_pass(grid, sim_cell, ping, 0),
                ping,
                pong,
                counted,
                scattered,
                pong.len() as int,
            );
            looks_at_adjacent(
                grid,
                sim_cell,
                pong.len() as int,
                i,
                partners(
                    grid,
                    starts_after(grid, sim_cell, perm, order, pong.len() as int),
                    ends_after(grid, sim_cell, perm, order, pong.len() as int),
                    perm,
                    cell_of(grid, sim_cell[i]),
                    i,
                    27,
                ),
            )
        }),
{
    let n = pong.len() as int;
    let ping = identity_perm(pong.len());
    assert forall|j: u32| j < n implies #[trigger] ping.contains(j) by {
        assert(ping[j as int] == j);
    }
    law_radix_pass_sorts_in_any_order(grid, sim_cell, ping, pong, 0, counted, scattered);
    let perm = scatter_along(
        digits_in_pass(grid, sim_cell, ping, 0),
        ping,
        pong,
        counted,
        scattered,
        n,
    );
    assert forall|k: int, l: int| 0 <= k <= l < perm.len() implies #[trigger] cell_at(
        grid,
        sim_cell,
        perm,
        k,
    ) <= #[trigger] cell_at(grid, sim_cell, perm, l) by {
        lemma_cell_at_in_grid(grid, sim_cell, perm, k);
        lemma_cell_at_in_grid(grid, sim_cell, perm, l);
        lemma_one_digit(cell_at(grid, sim_cell, perm, k));
        lemma_one_digit(cell_at(grid, sim_cell, perm, l));
        if k < l {
            assert(place_digit(grid, sim_cell, perm, 0, k) <= place_digit(
                grid,
                sim_cell,
                perm,
                0,
                l,
            ));
        }
    }
    law_adjacent_pairs_once(grid, sim_cell, perm, order, i);
}

/// Grid coordinates that are at most one apart along each axis name the same cell or cells that
/// touch, also where they lie outside of the grid. So one of the 27 offsets leads from the one cell
/// to the other.
pub proof fn law_close_coords_are_neighbors<S>(grid: CollGridUniform<S>, p: [i32; 3], q: [i32; 3])
    requires
        grid.wf(),
        forall|k: int| 0 <= k < 3 ==> -1 <= #[trigger] q@[k] - p@[k] <= 1,
    ensures
        0 <= cell_of(grid, p) < grid.num_cells,
        0 <= cell_of(grid, q) < grid.num_cells,
        adjacent(grid, cell_of(grid, p), cell_of(grid, q)),
        exists|dx: int, dy: int, dz: int|
            -1 <= dx <= 1 && -1 <= dy <= 1 && -1 <= dz <= 1 && #[trigger] neighbor_of(
                grid,
                cell_of(grid, p),
                dx,
                dy,
                dz,
            ) == cell_of(grid, q),
{
    let (gx, gy, gz) = (grid.gx as int, grid.gy as int, grid.gz as int);
    law_cell_of_in_grid(grid, p);
    law_cell_of_in_grid(grid, q);
    assert(-1 <= q@[0] - p@[0] <= 1 && -1 <= q@[1] - p@[1] <= 1 && -1 <= q@[2] - p@[2] <= 1);
    law_flat_index_decodes(
        gx,
        gy,
        clamp_to(p@[0] as int, gx),
        clamp_to(p@[1] as int, gy),
        clamp_to(p@[2] as int, gz),
    );
    law_flat_index_decodes(
        gx,
        gy,
        clamp_to(q@[0] as int, gx),
        clamp_to(q@[1] as int, gy),
        clamp_to(q@[2] as int, gz),
    );
    lemma_adjacent_by_offset(grid, cell_of(grid, p), cell_of(grid, q));
    let o = choose|o: int|
        0 <= o < 27 && #[trigger] neighbor_of(
            grid,
            cell_of(grid, p),
            offset_of(o).0,
            offset_of(o).1,
            offset_of(o).2,
        ) == cell_of(grid, q);
    let (dx, dy, dz) = offset_of(o);
    assert(neighbor_of(grid, cell_of(grid, p), dx, dy, dz) == cell_of(grid, q));
}

/// `a` and `b` differ by at most `reach`.
pub open spec fn differ_by_at_most<S, P>(m: ArithModel<S, P>, a: S, b: S, reach: S) -> bool {
    !(m.lt)(reach, (m.minus)(a, b)) && !(m.lt)(reach, (m.minus)(b, a))
}

/// Those of `numbers` that differ by at most `reach` round down to whole numbers at most one apart.
pub open spec fn floors_closely<S, P>(m: ArithModel<S, P>, numbers: Set<S>, reach: S) -> bool {
    forall|a: S, b: S|
        numbers.contains(a) && numbers.contains(b) && differ_by_at_most(m, a, b, reach) ==> -1
            <= #[trigger] (m.floor)(b) - #[trigger] (m.floor)(a) <= 1
}

/// Two positions that differ, in cells from the origin of the grid, by at most `reach` along each
/// axis.
pub open spec fn within_reach<S, P>(
    m: ArithModel<S, P>,
    grid: CollGridUniform<S>,
    numbers: Set<S>,
    reach: S,
    p: P,
    q: P,
) -> bool {
    forall|k: int|
        0 <= k < 3 ==> {
            let a = #[trigger] m.in_cells(grid, p)[k];
            let b = m.in_cells(grid, q)[k];
            numbers.contains(a) && numbers.contains(b) && differ_by_at_most(m, a, b, reach)
        }
}

/// The search of 27 cells misses no position within a cell size: where scalars that differ by at most
/// `reach` round down to numbers at most one apart, one of the 27 offsets leads from the cell of a
/// position to the cell of every other one within that reach.
pub proof fn law_close_positions_are_neighbors<S, P>(
    m: ArithModel<S, P>,
    grid: CollGridUniform<S>,
    numbers: Set<S>,
    reach: S,
    p: P,
    q: P,
)
    requires
        grid.wf(),
        floors_closely(m, numbers, reach),
        within_reach(m, grid, numbers, reach, p, q),
    ensures
        ({
            let a = cell_of(grid, m.grid_coords(grid, p));
            let b = cell_of(grid, m.grid_coords(grid, q));
            &&& 0 <= a < grid.num_cells
            &&& 0 <= b < grid.num_cells
            &&& adjacent(grid, a, b)
            &&& exists|dx: int, dy: int, dz: int|
                -1 <= dx <= 1 && -1 <= dy <= 1 && -1 <= dz <= 1 && #[trigger] neighbor_of(
                    grid,
                    a,
                    dx,
                    dy,
                    dz,
                ) == b
        }),
{
    let a = m.grid_coords(grid, p);
    let b = m.grid_coords(grid, q);
    let (x, y) = (m.in_cells(grid, p), m.in_cells(grid, q));
    assert forall|k: int| 0 <= k < 3 implies -1 <= #[trigger] b@[k] - a@[k] <= 1 by {
        assert(numbers.contains(x[k]) && numbers.contains(y[k]));
        assert(a@[k] == (m.floor)(x[k]) && b@[k] == (m.floor)(y[k]));
    }
    law_close_coords_are_neighbors(grid, a, b);
}

/// The narrow phase looks at every two particles whose positions are within reach of each other.
pub proof fn law_close_particles_are_looked_at<S, P>(
    m: ArithModel<S, P>,
    grid: CollGridUniform<S>,
    numbers: Set<S>,
    reach: S,
    sim: Seq<P>,
    i: int,
    j: u32,
    js: Seq<u32>,
)
    requires
        grid.wf(),
        floors_closely(m, numbers, reach),
        0 <= i < j < sim.len(),
        within_reach(m, grid, numbers, reach, sim[i], sim[j as int]),
        looks_at_adjacent(grid, m.all_grid_coords(grid, sim), sim.len() as int, i, js),
    ensures
        js.contains(j),
{
    law_close_positions_are_neighbors(m, grid, numbers, reach, sim[i], sim[j as int]);
}

proof fn lemma_sums_commute(a: i32, x: i32, y: i32)
    ensures
        wrapping_sum_i32(wrapping_sum_i32(a, x) as i32, y) == wrapping_sum_i32(
            wrapping_sum_i32(a, y) as i32,
            x,
        ),
{
}

/// Displacements add up to the same in any order.
pub proof fn law_displacements_commute(
    acc: Seq<i32>,
    p: int,
    d: Seq<i32>,
    q: int,
    e: Seq<i32>,
)
    requires
        0 <= p,
        p * 3 + 2 < acc.len(),
        0 <= q,
        q * 3 + 2 < acc.len(),
    ensures
        add3(add3(acc, p, d), q, e) == add3(add3(acc, q, e), p, d),
{
    let a = add3(add3(acc, p, d), q, e);
    let b = add3(add3(acc, q, e), p, d);
    assert forall|k: int| 0 <= k < acc.len() implies a[k] == b[k] by {
        if p == q && p * 3 <= k < p * 3 + 3 {
            lemma_sums_commute(acc[k], d[k - p * 3], e[k - p * 3]);
        }
    }
    assert(a =~= b);
}

/// Displacements of two particles, each taken where the particle may move, add up to the same in any
/// order.
proof fn lemma_moves_commute(
    acc: Seq<i32>,
    a: (bool, int, [i32; 3]),
    b: (bool, int, [i32; 3]),
)
    requires
        0 <= a.1,
        a.1 * 3 + 2 < acc.len(),
        0 <= b.1,
        b.1 * 3 + 2 < acc.len(),
    ensures
        add3_if(b.0, add3_if(a.0, acc, a.1, a.2), b.1, b.2) == add3_if(
            a.0,
            add3_if(b.0, acc, b.1, b.2),
            a.1,
            a.2,
        ),
{
    law_displacements_commute(acc, a.1, a.2@, b.1, b.2@);
}

/// The order in which two pairs are separated does not matter.
pub proof fn law_pairs_commute<S, P>(
    m: ArithModel<S, P>,
    fix: spec_fn(P) -> [i32; 3],
    params: SimParams<S>,
    sim: Seq<P>,
    rest: Seq<P>,
    inv_mass: Seq<S>,
    acc: Seq<i32>,
    a: (int, int),
    b: (int, int),
)
    requires
        0 <= a.0 && a.0 * 3 + 2 < acc.len(),
        0 <= a.1 && a.1 * 3 + 2 < acc.len(),
        0 <= b.0 && b.0 * 3 + 2 < acc.len(),
        0 <= b.1 && b.1 * 3 + 2 < acc.len(),
    ensures
        ({
            let after = |acc: Seq<i32>, p: (int, int)|
                pair_effect(m, fix, params, sim, rest, inv_mass, acc, p.0, p.1);
            after(after(acc, a), b) == after(after(acc, b), a)
        }),
{
    let zero = m.k.zero;
    let ea = pair_input(params, sim, rest, inv_mass, zero, a.0, a.1);
    let eb = pair_input(params, sim, rest, inv_mass, zero, b.0, b.1);
    if let Some((ai, aj)) = m.separated(ea, params.thickness, params.coll_scale) {
        if let Some((bi, bj)) = m.separated(eb, params.thickness, params.coll_scale) {
            let p = ((m.lt)(zero, ea.w_i), a.0, fix(ai));
            let q = ((m.lt)(zero, ea.w_j), a.1, fix(aj));
            let r = ((m.lt)(zero, eb.w_i), b.0, fix(bi));
            let s = ((m.lt)(zero, eb.w_j), b.1, fix(bj));
            let moved = |acc: Seq<i32>, t: (bool, int, [i32; 3])| add3_if(t.0, acc, t.1, t.2);
            lemma_moves_commute(acc, p, r);
            lemma_moves_commute(moved(acc, p), q, r);
            lemma_moves_commute(moved(acc, r), p, s);
            lemma_moves_commute(moved(moved(acc, r), p), q, s);
        }
    }
}

} // verus!
