//! Client-side tooling for the awc compositor: configuration marshaling into a
//! flat, handle-based exported form backed by an allocation arena, the exact
//! structural teardown of that form, and the length-prefixed JSON control
//! protocol spoken by the compositor's command-line and layout-picker clients.

use vstd::prelude::*;

pub mod arena;
pub mod client;
pub mod export;
pub mod flat;
pub mod geometry;
pub mod tree;
pub mod wire;

verus! {

/// A text payload may not contain the record terminator byte; exported strings
/// are terminator-delimited, so such a payload cannot be represented.
pub const TERMINATOR: u8 = 0;

/// Returns whether `v` contains the record terminator byte.
pub fn contains_terminator(v: &Vec<u8>) -> (r: bool)
    ensures
        r == v@.contains(TERMINATOR),
{
    let mut i: usize = 0;
    while i < v.len()
        invariant
            i <= v@.len(),
            forall|j: int| 0 <= j < i ==> v@[j] != TERMINATOR,
        decreases v@.len() - i,
    {
        if v[i] == TERMINATOR {
            assert(v@.contains(TERMINATOR));
            return true;
        }
        i += 1;
    }
    assert(!v@.contains(TERMINATOR));
    false
}

/// Copies a vector of plain values.
pub fn copy_vec<T: Copy>(v: &Vec<T>) -> (r: Vec<T>)
    ensures
        r@ == v@,
{
    let mut r: Vec<T> = Vec::new();
    let mut i: usize = 0;
    while i < v.len()
        invariant
            i <= v@.len(),
            r@ == v@.take(i as int),
        decreases v@.len() - i,
    {
        r.push(v[i]);
        proof {
            assert(v@.take(i + 1) =~= v@.take(i as int).push(v@[i as int]));
        }
        i += 1;
    }
    proof {
        assert(v@.take(v@.len() as int) =~= v@);
    }
    r
}

} // verus!
