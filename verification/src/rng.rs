//! The chance that cats act on: a linear congruential generator.

use vstd::prelude::*;

verus! {

/// The state of the generator after one more draw.
#[verifier::opaque]
pub open spec fn lcg(rng: u64) -> u64 {
    ((rng * 6364136223846793005 + 1) % 0x1_0000_0000_0000_0000) as u64
}

/// The number below `n` that a state of the generator stands for.
pub open spec fn rolled(rng: u64, n: u32) -> u32 {
    ((rng / 0x1_0000_0000) % (n as u64)) as u32
}

/// Draws, and gives the state itself.
pub fn roll_u64(rng: &mut u64) -> (r: u64)
    ensures
        *final(rng) == lcg(*old(rng)),
        r == *final(rng),
{
    let product: u64 = (*rng).wrapping_mul(6364136223846793005);
    let next: u64 = product.wrapping_add(1);
    proof {
        reveal(lcg);
        let p = *rng * 6364136223846793005;
        vstd::arithmetic::div_mod::lemma_add_mod_noop(p, 1, 0x1_0000_0000_0000_0000);
        vstd::arithmetic::div_mod::lemma_mod_twice(p, 0x1_0000_0000_0000_0000);
        vstd::arithmetic::div_mod::lemma_add_mod_noop(
            p % 0x1_0000_0000_0000_0000,
            1,
            0x1_0000_0000_0000_0000,
        );
        assert(next == lcg(*rng));
    }
    *rng = next;
    next
}

/// Draws a number below `n`.
pub fn roll(rng: &mut u64, n: u32) -> (r: u32)
    requires
        n > 0,
    ensures
        *final(rng) == lcg(*old(rng)),
        r == rolled(*final(rng), n),
        r < n,
{
    let state: u64 = roll_u64(rng);
    assert(state >> 32 == state / 0x1_0000_0000) by (bit_vector);
    assert((state >> 32) as u32 == state / 0x1_0000_0000);
    ((state >> 32) as u32) % n
}

/// The starting bearing that a seed stands for, in degrees.
pub open spec fn bearing_of(seed: u64) -> u32 {
    (seed / 256 % 360) as u32
}

/// The starting bearing that a seed stands for, in degrees.
pub fn bearing(seed: u64) -> (r: u32)
    ensures
        r == bearing_of(seed),
        r < 360,
{
    assert(seed >> 8 == seed / 256) by (bit_vector);
    ((seed >> 8) % 360) as u32
}

/// The low 32 bits of a number.
pub open spec fn low_of(n: nat) -> u32 {
    (n % 0x1_0000_0000) as u32
}

/// The low 32 bits of a number.
pub fn low(n: usize) -> (r: u32)
    ensures
        r == low_of(n as nat),
{
    let wide: u64 = n as u64;
    assert(wide as u32 == wide % 0x1_0000_0000) by (bit_vector);
    wide as u32
}

} // verus!
