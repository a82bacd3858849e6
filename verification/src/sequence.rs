//! The circle of 16-bit sequence identifiers: after 65535 comes 0.

use vstd::prelude::*;

verus! {

/// The identifier `k` places after `start` on the circle of 16-bit
/// identifiers.
#[verifier::opaque]
pub open spec fn id_after(start: u16, k: int) -> u16 {
    ((start + k) % 0x1_0000) as u16
}

/// How many places `id` lies after `next` on the circle of 16-bit
/// identifiers: 0 for `next` itself, up to 65535 for the one just before it.
pub open spec fn distance_ahead(next: u16, id: u16) -> int {
    if id >= next {
        id - next
    } else {
        id - next + 0x1_0000
    }
}

/// Going `k` places on, for less than a full circle, ends `k` places ahead;
/// a full circle more ends in the same place.
pub proof fn lemma_id_after(start: u16, k: int)
    requires
        0 <= k,
    ensures
        k == 0 ==> id_after(start, k) == start,
        k < 0x1_0000 ==> distance_ahead(start, id_after(start, k)) == k,
        id_after(start, k + 0x1_0000) == id_after(start, k),
{
    reveal(id_after);
}

/// An identifier is where going on by its distance ends.
pub proof fn lemma_id_after_distance(start: u16, id: u16)
    ensures
        id_after(start, distance_ahead(start, id)) == id,
{
    reveal(id_after);
}

/// Going `a` places on and then `b` more is going `a + b` places on.
pub proof fn lemma_id_after_twice(start: u16, a: int, b: int)
    requires
        0 <= a,
        0 <= b,
    ensures
        id_after(id_after(start, a), b) == id_after(start, a + b),
{
    reveal(id_after);
}

/// An identifier is ahead of `next` if it lies less than half the circle
/// after it; every other identifier but `next` itself is behind.
pub open spec fn is_ahead(next: u16, id: u16) -> bool {
    0 < distance_ahead(next, id) < 0x8000
}

/// How many places `id` lies after `next`.
pub fn places_ahead(next: u16, id: u16) -> (places: u16)
    ensures
        places == distance_ahead(next, id),
{
    if id >= next {
        id - next
    } else {
        0xFFFF - (next - id) + 1
    }
}

/// The identifier that follows `id`.
pub fn next_id(id: u16) -> (next: u16)
    ensures
        next == id_after(id, 1),
{
    proof {
        reveal(id_after);
    }
    if id == 0xFFFF {
        0
    } else {
        id + 1
    }
}

} // verus!
