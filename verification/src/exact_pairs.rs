//! Self-collision over real numbers.

use vstd::prelude::*;

use crate::arith::ArithModel;
use crate::exact::{
    difference, exact, has_length, law_length, lemma_multiple_length, multiple, sum, Vector,
};
use crate::reals::{
    lemma_negative, lemma_not_negative, lemma_one, lemma_positive, lemma_quotient,
    lemma_same_root, lemma_shift, lemma_smaller_root, lemma_spread, lemma_swap,
};
use crate::substep::PairInput;

verus! {

/// The distance that two particles keep when they are `rest_len` apart at rest: the thickness, or
/// less where they are close at rest.
pub open spec fn kept(m: ArithModel<real, Vector>, thickness: real, rest_len: real) -> real {
    if rest_len < thickness * m.k.local_reach && rest_len < thickness {
        rest_len
    } else {
        thickness
    }
}

/// The pair is `dist` apart and was `rest_len` apart at rest. Its collisions are on, and one of the
/// particles can move.
pub open spec fn pair_at(
    e: PairInput<real, Vector>,
    thickness: real,
    coll_scale: real,
    dist: real,
    rest_len: real,
) -> bool {
    &&& 0real <= thickness
    &&& 0real < coll_scale
    &&& 0real <= e.w_i
    &&& 0real <= e.w_j
    &&& 0real < e.w_i + e.w_j
    &&& has_length(difference(e.p_j, e.p_i), dist)
    &&& has_length(difference(e.rest_j, e.rest_i), rest_len)
}

proof fn lemma_correction_sign(gap: real, scale: real)
    requires
        0real < scale,
    ensures
        0real < gap * scale <==> 0real < gap,
{
    if 0real < gap {
        lemma_positive(gap, scale);
    } else {
        lemma_not_negative(-gap, scale);
        lemma_negative(gap, scale);
    }
}

/// Two particles are separated where they are closer than the distance that they keep. So nearly
/// coincident ones are where they keep any distance at all.
pub proof fn law_contact(
    m: ArithModel<real, Vector>,
    e: PairInput<real, Vector>,
    thickness: real,
    coll_scale: real,
    dist: real,
    rest_len: real,
)
    requires
        exact(m),
        pair_at(e, thickness, coll_scale, dist, rest_len),
    ensures
        m.k.tiny_sq < dist * dist ==> (m.separated(e, thickness, coll_scale) is Some <==> dist
            < kept(m, thickness, rest_len)),
        dist * dist <= m.k.tiny_sq ==> (m.separated(e, thickness, coll_scale) is Some <==> 0real
            < kept(m, thickness, rest_len) && dist <= kept(m, thickness, rest_len)),
{
    let d = difference(e.p_j, e.p_i);
    let rest_d = difference(e.rest_j, e.rest_i);
    law_length(m, d);
    law_length(m, rest_d);
    lemma_same_root(dist, m.length(d));
    lemma_same_root(rest_len, m.length(rest_d));
    lemma_smaller_root(thickness, dist);
    lemma_smaller_root(rest_len, dist);
    let keep = kept(m, thickness, rest_len);
    let from = if m.k.tiny_sq < dist * dist {
        dist
    } else {
        0real
    };
    lemma_correction_sign(keep - from, coll_scale);
    let local = rest_len < thickness * m.k.local_reach;
    assert(m.kept_distance(thickness, rest_len, local) == keep);
}

/// Two particles are moved apart by a whole way, each by the share of its own inverse mass.
pub proof fn law_pushed(m: ArithModel<real, Vector>, way: Vector, w_i: real, w_j: real)
    requires
        exact(m),
        0real <= w_i,
        0real <= w_j,
        m.k.tiny <= w_i + w_j,
    ensures
        ({
            let (d_i, d_j) = m.pushed(way, w_i, w_j);
            &&& difference(d_j, d_i) == way
            &&& multiple(d_i, w_i + w_j) == multiple(way, -w_i)
            &&& multiple(d_j, w_i + w_j) == multiple(way, w_j)
        }),
{
    let weights = w_i + w_j;
    let inv = 1real / weights;
    lemma_quotient(1real, weights);
    lemma_pushed_part(way.0, w_i, w_j, inv);
    lemma_pushed_part(way.1, w_i, w_j, inv);
    lemma_pushed_part(way.2, w_i, w_j, inv);
}

/// Where the inverse masses together are next to nothing, the particles are moved as if they were the
/// least sum that counts.
pub proof fn law_heavy_pair_pushed(m: ArithModel<real, Vector>, way: Vector, w_i: real, w_j: real)
    requires
        exact(m),
        w_i + w_j < m.k.tiny,
    ensures
        ({
            let (d_i, d_j) = m.pushed(way, w_i, w_j);
            &&& multiple(d_i, m.k.tiny) == multiple(way, -w_i)
            &&& multiple(d_j, m.k.tiny) == multiple(way, w_j)
        }),
{
    let inv = 1real / m.k.tiny;
    lemma_quotient(1real, m.k.tiny);
    lemma_heavy_part(way.0, w_i, w_j, inv, m.k.tiny);
    lemma_heavy_part(way.1, w_i, w_j, inv, m.k.tiny);
    lemma_heavy_part(way.2, w_i, w_j, inv, m.k.tiny);
}

proof fn lemma_heavy_part(x: real, w_i: real, w_j: real, inv: real, tiny: real)
    requires
        inv * tiny == 1real,
    ensures
        (((-x) * w_i) * inv) * tiny == x * (-w_i),
        ((x * w_j) * inv) * tiny == x * w_j,
{
    lemma_shift((-x) * w_i, inv, tiny);
    lemma_shift(x * w_j, inv, tiny);
    lemma_one((-x) * w_i, inv * tiny);
    lemma_one(x * w_j, inv * tiny);
    lemma_negative(x, w_i);
}

proof fn lemma_pushed_part(x: real, w_i: real, w_j: real, inv: real)
    requires
        inv * (w_i + w_j) == 1real,
    ensures
        (x * w_j) * inv - ((-x) * w_i) * inv == x,
        (((-x) * w_i) * inv) * (w_i + w_j) == x * (-w_i),
        ((x * w_j) * inv) * (w_i + w_j) == x * w_j,
{
    lemma_shift((-x) * w_i, inv, w_i + w_j);
    lemma_shift(x * w_j, inv, w_i + w_j);
    lemma_negative(x, w_i);
    lemma_negative(x * w_i, inv);
    lemma_spread(x * w_i, x * w_j, inv);
    lemma_spread(w_i, w_j, x);
    lemma_shift(x, w_i + w_j, inv);
    lemma_swap(w_i + w_j, inv);
    lemma_one(x, (w_i + w_j) * inv);
    let whole = x * (w_i + w_j);
    let back = (-x) * w_i;
    assert(back == -(x * w_i));
    assert(back * inv == -((x * w_i) * inv));
    assert(whole * inv == (x * w_i) * inv + (x * w_j) * inv);
}

/// The sum of inverse masses that counts: no less than the least one.
pub open spec fn counted(m: ArithModel<real, Vector>, weights: real) -> real {
    if weights < m.k.tiny {
        m.k.tiny
    } else {
        weights
    }
}

/// Particles that do not coincide are moved apart along the line between them, the first one back and
/// the second one forth, each by the share of its own inverse mass. So they end farther apart than
/// they were, and with strength one exactly as far apart as they keep. Inverse masses that are next to
/// nothing together count as the least sum, and such particles are moved by less.
pub proof fn law_separated(
    m: ArithModel<real, Vector>,
    e: PairInput<real, Vector>,
    thickness: real,
    coll_scale: real,
    dist: real,
    rest_len: real,
)
    requires
        exact(m),
        pair_at(e, thickness, coll_scale, dist, rest_len),
        m.k.tiny_sq < dist * dist,
        m.k.coincident <= dist,
    ensures
        m.separated(e, thickness, coll_scale) matches Some((d_i, d_j)) ==> {
            let offset = difference(e.p_j, e.p_i);
            let gap = (kept(m, thickness, rest_len) - dist) * coll_scale;
            let share = counted(m, e.w_i + e.w_j) * dist;
            let after = difference(sum(e.p_j, d_j), sum(e.p_i, d_i));
            &&& 0real < gap
            &&& 0real < share
            &&& multiple(d_i, share) == multiple(offset, -(e.w_i * gap))
            &&& multiple(d_j, share) == multiple(offset, e.w_j * gap)
            &&& m.k.tiny <= e.w_i + e.w_j ==> {
                &&& multiple(after, dist) == multiple(offset, dist + gap)
                &&& has_length(after, dist + gap)
                &&& coll_scale == 1real ==> has_length(after, kept(m, thickness, rest_len))
            }
        },
{
    law_contact(m, e, thickness, coll_scale, dist, rest_len);
    if m.separated(e, thickness, coll_scale) is Some {
        let (d_i, d_j) = m.separated(e, thickness, coll_scale).unwrap();
        let offset = difference(e.p_j, e.p_i);
        let rest_d = difference(e.rest_j, e.rest_i);
        let keep = kept(m, thickness, rest_len);
        let gap = (keep - dist) * coll_scale;
        let weights = counted(m, e.w_i + e.w_j);
        law_length(m, offset);
        law_length(m, rest_d);
        lemma_same_root(dist, m.length(offset));
        lemma_same_root(rest_len, m.length(rest_d));
        lemma_correction_sign(keep - dist, coll_scale);
        let local = rest_len < thickness * m.k.local_reach;
        assert(m.kept_distance(thickness, rest_len, local) == keep);
        let way = multiple(offset, gap / dist);
        assert((d_i, d_j) == m.pushed(way, e.w_i, e.w_j));
        if e.w_i + e.w_j < m.k.tiny {
            law_heavy_pair_pushed(m, way, e.w_i, e.w_j);
        } else {
            law_pushed(m, way, e.w_i, e.w_j);
        }
        lemma_quotient(gap, dist);
        lemma_positive(weights, dist);
        let q = gap / dist;
        lemma_separated_part(offset.0, d_i.0, d_j.0, q, gap, dist, e.w_i, e.w_j, weights);
        lemma_separated_part(offset.1, d_i.1, d_j.1, q, gap, dist, e.w_i, e.w_j, weights);
        lemma_separated_part(offset.2, d_i.2, d_j.2, q, gap, dist, e.w_i, e.w_j, weights);
        let after = difference(sum(e.p_j, d_j), sum(e.p_i, d_i));
        let s = 1real + gap / dist;
        lemma_spread(1real, gap / dist, offset.0);
        lemma_spread(1real, gap / dist, offset.1);
        lemma_spread(1real, gap / dist, offset.2);
        if m.k.tiny <= e.w_i + e.w_j {
            assert(after == sum(offset, way));
            assert(after == multiple(offset, s));
        }
        lemma_swap(gap / dist, dist);
        lemma_spread(1real, gap / dist, dist);
        if gap / dist <= 0real {
            lemma_not_negative(-(gap / dist), dist);
            lemma_negative(gap / dist, dist);
        }
        lemma_multiple_length(offset, s, dist);
    }
}

proof fn lemma_separated_part(
    x: real,
    d_i: real,
    d_j: real,
    q: real,
    gap: real,
    dist: real,
    w_i: real,
    w_j: real,
    weights: real,
)
    requires
        q * dist == gap,
        d_i * weights == (x * q) * (-w_i),
        d_j * weights == (x * q) * w_j,
    ensures
        d_i * (weights * dist) == x * (-(w_i * gap)),
        d_j * (weights * dist) == x * (w_j * gap),
        (x + x * q) * dist == x * (dist + gap),
{
    lemma_shift(d_i, weights, dist);
    lemma_shift(d_j, weights, dist);
    lemma_share(x, q, gap, dist, -w_i);
    lemma_share(x, q, gap, dist, w_j);
    lemma_negative(w_i, gap);
    lemma_spread(x, x * q, dist);
    lemma_shift(x, q, dist);
    lemma_spread(dist, gap, x);
}

proof fn lemma_share(x: real, q: real, gap: real, dist: real, w: real)
    requires
        q * dist == gap,
    ensures
        ((x * q) * w) * dist == x * (w * gap),
{
    lemma_shift(x, q, w);
    lemma_shift(x, q * w, dist);
    lemma_swap(q, w);
    lemma_shift(w, q, dist);
}

/// Particles that coincide are moved apart by as much, along the line they have at rest, or upwards
/// where they coincide there too. The moves are in proportion to the inverse masses.
pub proof fn law_coincident_separated(
    m: ArithModel<real, Vector>,
    e: PairInput<real, Vector>,
    thickness: real,
    coll_scale: real,
    dist: real,
    rest_len: real,
)
    requires
        exact(m),
        pair_at(e, thickness, coll_scale, dist, rest_len),
        m.k.tiny <= e.w_i + e.w_j,
        dist * dist <= m.k.tiny_sq || dist < m.k.coincident,
    ensures
        m.separated(e, thickness, coll_scale) matches Some((d_i, d_j)) ==> {
            let rest_d = difference(e.rest_j, e.rest_i);
            let from = if m.k.tiny_sq < dist * dist {
                dist
            } else {
                0real
            };
            let gap = (kept(m, thickness, rest_len) - from) * coll_scale;
            let way = difference(d_j, d_i);
            &&& 0real < gap
            &&& has_length(way, gap)
            &&& m.k.tiny < rest_len ==> multiple(way, rest_len) == multiple(rest_d, gap)
            &&& rest_len <= m.k.tiny ==> way == (0real, gap, 0real)
            &&& multiple(d_i, e.w_i + e.w_j) == multiple(way, -e.w_i)
            &&& multiple(d_j, e.w_i + e.w_j) == multiple(way, e.w_j)
        },
{
    law_contact(m, e, thickness, coll_scale, dist, rest_len);
    if m.separated(e, thickness, coll_scale) is Some {
        let offset = difference(e.p_j, e.p_i);
        let rest_d = difference(e.rest_j, e.rest_i);
        let keep = kept(m, thickness, rest_len);
        let from = if m.k.tiny_sq < dist * dist {
            dist
        } else {
            0real
        };
        let gap = (keep - from) * coll_scale;
        law_length(m, offset);
        law_length(m, rest_d);
        lemma_same_root(dist, m.length(offset));
        lemma_same_root(rest_len, m.length(rest_d));
        lemma_correction_sign(keep - from, coll_scale);
        let local = rest_len < thickness * m.k.local_reach;
        assert(m.kept_distance(thickness, rest_len, local) == keep);
        let way = if m.k.tiny < rest_len {
            multiple(rest_d, gap / rest_len)
        } else {
            (0real, gap, 0real)
        };
        assert(m.separated(e, thickness, coll_scale) == Some(m.pushed(way, e.w_i, e.w_j)));
        law_pushed(m, way, e.w_i, e.w_j);
        if m.k.tiny < rest_len {
            let q = gap / rest_len;
            lemma_quotient(gap, rest_len);
            lemma_shift(rest_d.0, q, rest_len);
            lemma_shift(rest_d.1, q, rest_len);
            lemma_shift(rest_d.2, q, rest_len);
            lemma_swap(q, rest_len);
            if q <= 0real {
                lemma_not_negative(-q, rest_len);
                lemma_negative(q, rest_len);
            }
            lemma_multiple_length(rest_d, q, rest_len);
        } else {
            lemma_spread(0real, 0real, 0real);
        }
    }
}

} // verus!
