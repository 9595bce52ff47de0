//! Fixtures of a standard game.
use vstd::prelude::*;
use crate::random::{seeded_from_rules, XorShiftRng};

verus! {

/// The seed of the rules of the standard game.
pub const EXAMPLE_SEED: i64 = 42;

/// The generator of the standard game: the halves of its seed, then two fixed words.
pub fn example_rng() -> (r: XorShiftRng)
    ensures
        r@ == (42u32, 0u32, 1841971383u32, 1904458926u32),
{
    proof {
        assert(42i64 as u32 == 42u32) by (bit_vector);
        assert((42i64 >> 32u32) as u32 == 0u32) by (bit_vector);
    }
    seeded_from_rules(EXAMPLE_SEED)
}

} // verus!
