//! Facts about real numbers.

use vstd::prelude::*;

verus! {

pub(crate) proof fn lemma_square(a: real)
    ensures
        0real <= a * a,
{
    assert(0real <= a * a) by (nonlinear_arith);
}

pub(crate) proof fn lemma_quotient(a: real, b: real)
    requires
        b != 0real,
    ensures
        (a / b) * b == a,
{
    assert((a / b) * b == a) by (nonlinear_arith)
        requires
            b != 0real,
    ;
}

pub(crate) proof fn lemma_positive(a: real, b: real)
    requires
        0real < a,
        0real < b,
    ensures
        0real < a * b,
{
    assert(0real < a * b) by (nonlinear_arith)
        requires
            0real < a,
            0real < b,
    ;
}

pub(crate) proof fn lemma_swap(a: real, b: real)
    ensures
        a * b == b * a,
{
    assert(a * b == b * a) by (nonlinear_arith);
}

pub(crate) proof fn lemma_one(a: real, b: real)
    requires
        b == 1real,
    ensures
        a * b == a,
{
    assert(a * b == a) by (nonlinear_arith)
        requires
            b == 1real,
    ;
}

pub(crate) proof fn lemma_shift(a: real, b: real, c: real)
    ensures
        (a * b) * c == a * (b * c),
{
    assert((a * b) * c == a * (b * c)) by (nonlinear_arith);
}

pub(crate) proof fn lemma_spread(a: real, b: real, c: real)
    ensures
        (a + b) * c == a * c + b * c,
        (a - b) * c == a * c - b * c,
        c * (a + b) == c * a + c * b,
        c * (a - b) == c * a - c * b,
{
    assert((a + b) * c == a * c + b * c) by (nonlinear_arith);
    assert((a - b) * c == a * c - b * c) by (nonlinear_arith);
    assert(c * (a + b) == c * a + c * b) by (nonlinear_arith);
    assert(c * (a - b) == c * a - c * b) by (nonlinear_arith);
}

pub(crate) proof fn lemma_smaller_root(a: real, b: real)
    requires
        0real <= a,
        0real <= b,
    ensures
        a < b <==> a * a < b * b,
{
    lemma_spread(a, b, a + b);
    lemma_spread(a, b, a);
    lemma_spread(a, b, b);
    lemma_swap(a, b);
    if a < b {
        lemma_positive(b - a, a + b);
        lemma_spread(b, a, a + b);
    } else if b < a {
        lemma_positive(a - b, a + b);
    }
}

pub(crate) proof fn lemma_same_root(a: real, b: real)
    requires
        0real <= a,
        0real <= b,
        a * a == b * b,
    ensures
        a == b,
{
    lemma_smaller_root(a, b);
    lemma_smaller_root(b, a);
}

/// `(a b) (a b) = (a a) (b b)`.
pub(crate) proof fn lemma_product_square(a: real, b: real)
    ensures
        (a * b) * (a * b) == (a * a) * (b * b),
{
    lemma_shift(a, b, a * b);
    lemma_swap(b, a * b);
    lemma_shift(a, b, b);
    lemma_shift(a, a, b * b);
}

pub(crate) proof fn lemma_negative(a: real, b: real)
    ensures
        (-a) * b == -(a * b),
        a * (-b) == -(a * b),
{
    lemma_spread(0real, a, b);
    lemma_spread(0real, b, a);
}

pub(crate) proof fn lemma_nonzero(a: real, b: real)
    requires
        a != 0real,
        b != 0real,
    ensures
        a * b != 0real,
{
    lemma_negative(a, b);
    lemma_negative(-a, b);
    let s = if 0real < a {
        a
    } else {
        -a
    };
    let t = if 0real < b {
        b
    } else {
        -b
    };
    lemma_positive(s, t);
    lemma_negative(s, b);
}

pub(crate) proof fn lemma_cancel(a: real, b: real, c: real)
    requires
        c != 0real,
        a * c == b * c,
    ensures
        a == b,
{
    lemma_spread(a, b, c);
    if a != b {
        lemma_nonzero(a - b, c);
    }
}

pub(crate) proof fn lemma_not_negative(a: real, b: real)
    requires
        0real <= a,
        0real <= b,
    ensures
        0real <= a * b,
{
    if 0real < a && 0real < b {
        lemma_positive(a, b);
    }
}

} // verus!
