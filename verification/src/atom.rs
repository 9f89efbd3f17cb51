//! Storage-buffer cells that many invocations update.
//!
//! Each function is one atomic operation on one cell, with the memory model's sequential meaning:
//! an addition wraps around and hands back what the cell held before.

use vstd::prelude::*;

verus! {

/// The sum of `a` and `b` modulo 2^32, read as a signed number.
pub open spec fn wrapping_sum_i32(a: i32, b: i32) -> int {
    if a + b > i32::MAX {
        a + b - 0x1_0000_0000
    } else if a + b < i32::MIN {
        a + b + 0x1_0000_0000
    } else {
        a + b
    }
}

/// The sum of `a` and `b` modulo 2^32.
pub open spec fn wrapping_sum_u32(a: u32, b: u32) -> int {
    if a + b > u32::MAX {
        a + b - 0x1_0000_0000
    } else {
        a + b
    }
}

/// A wrapped sum is the sum but for a multiple of 2^32, in the range of its type.
pub proof fn law_wrapped_sums(a: i32, b: i32, c: u32, d: u32)
    ensures
        i32::MIN <= wrapping_sum_i32(a, b) <= i32::MAX,
        (wrapping_sum_i32(a, b) - (a + b)) % 0x1_0000_0000 == 0,
        0 <= wrapping_sum_u32(c, d) <= u32::MAX,
        (wrapping_sum_u32(c, d) - (c + d)) % 0x1_0000_0000 == 0,
{
}

pub fn store_i32(ptr: &mut i32, value: i32)
    ensures
        *final(ptr) == value,
{
    *ptr = value;
}

pub fn load_i32(ptr: &i32) -> (value: i32)
    ensures
        value == *ptr,
{
    *ptr
}

pub fn add_i32(ptr: &mut i32, value: i32) -> (previous: i32)
    ensures
        previous == *old(ptr),
        *final(ptr) == wrapping_sum_i32(*old(ptr), value),
{
    let previous: i32 = *ptr;
    *ptr = previous.wrapping_add(value);
    previous
}

pub fn store_u32(ptr: &mut u32, value: u32)
    ensures
        *final(ptr) == value,
{
    *ptr = value;
}

pub fn load_u32(ptr: &u32) -> (value: u32)
    ensures
        value == *ptr,
{
    *ptr
}

pub fn add_u32(ptr: &mut u32, value: u32) -> (previous: u32)
    ensures
        previous == *old(ptr),
        *final(ptr) == wrapping_sum_u32(*old(ptr), value),
{
    let previous: u32 = *ptr;
    *ptr = previous.wrapping_add(value);
    previous
}

} // verus!
