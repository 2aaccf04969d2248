//! Counts and multiplicities taken as signed 32-bit numbers, the way the comparisons of
//! associative-commutative arguments subtract them.
use vstd::prelude::*;

verus! {

/// A multiplicity taken as `i32` (wrapping above `i32::MAX`).
pub open spec fn signed(m: u32) -> i32 {
    m as i32
}

/// A count taken as `i32` (keeping its low 32 bits).
pub open spec fn wrapped(n: nat) -> i32 {
    n as i32
}

/// A position as an index.
pub open spec fn index_of(p: int) -> usize {
    p as usize
}

/// A 32-bit index as a `usize`.
pub open spec fn index_usize(i: u32) -> usize {
    i as usize
}

/// The difference of two counts, the first not below the second.
pub open spec fn less(a: u32, b: u32) -> u32 {
    (a - b) as u32
}

/// A 32-bit index as a `usize`.
pub fn usize_of(i: u32) -> (r: usize)
    ensures
        r == index_usize(i),
        r == i,
{
    i as usize
}

/// An index that fits in 32 bits.
pub fn index_u32(i: usize) -> (r: u32)
    requires
        i <= u32::MAX,
    ensures
        r == i,
{
    i as u32
}

/// A multiplicity taken as `i32`.
pub fn signed_of(m: u32) -> (r: i32)
    ensures
        r == signed(m),
{
    m as i32
}

/// A count taken as `i32`.
pub fn signed_count(n: usize) -> (r: i32)
    ensures
        r == wrapped(n as nat),
{
    n as i32
}

} // verus!
