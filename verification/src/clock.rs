//! Numbers drawn from the clock, for identifiers and seeds.

use std::time::{SystemTime, SystemTimeError};
use vstd::prelude::*;

verus! {

/// What the clock says when it stands before the moment that it is compared with.
#[verifier::external_type_specification]
#[verifier::external_body]
pub struct ExSystemTimeError(SystemTimeError);

/// `SystemTime::elapsed` of the standard library, from the Unix epoch on, with the
/// duration handed back in nanoseconds. What comes back depends on how the clock is
/// set. All that is claimed is that a duration holds at most `u64::MAX` seconds and
/// 999 999 999 nanoseconds.
#[verifier::external_body]
fn since_epoch() -> (r: Result<u128, SystemTimeError>)
    ensures
        r matches Ok(nanos) ==> nanos <= MAX_NANOS,
{
    match SystemTime::UNIX_EPOCH.elapsed() {
        Ok(elapsed) => Ok(elapsed.as_nanos()),
        Err(error) => Err(error),
    }
}

/// The nanoseconds of the longest duration.
pub const MAX_NANOS: u128 = 18446744073709551615999999999;

/// What an elapsed time stands for: its nanoseconds, or 1 where the clock stands
/// before the epoch.
pub fn nanos_or_one(elapsed: Option<u128>) -> (r: u128)
    ensures
        r == (match elapsed {
            Some(nanos) => nanos,
            None => 1,
        }),
{
    match elapsed {
        Some(nanos) => nanos,
        None => 1,
    }
}

/// A reading that the clock can have given: the nanoseconds since the Unix epoch
/// that it was asked for, or 1 where it answered that it stands before it.
pub closed spec fn clock_gave(r: u128) -> bool {
    exists|said: Result<u128, SystemTimeError>| #[trigger]
        call_ensures(since_epoch, (), said) && r == (match said {
            Ok(nanos) => nanos,
            Err(_) => 1,
        })
}

/// The nanoseconds since the Unix epoch, or 1 where the clock stands before it.
pub fn now_seed() -> (r: u128)
    ensures
        clock_gave(r),
        r <= MAX_NANOS,
{
    let said = since_epoch();
    assert(call_ensures(since_epoch, (), said));
    let elapsed = match said {
        Ok(nanos) => Some(nanos),
        Err(_) => None,
    };
    nanos_or_one(elapsed)
}

/// The low 64 bits of a clock reading.
pub fn low_bits(nanos: u128) -> (r: u64)
    ensures
        r == nanos % 0x1_0000_0000_0000_0000,
{
    assert(nanos as u64 == nanos % 0x1_0000_0000_0000_0000) by (bit_vector);
    nanos as u64
}

/// A seed drawn from the clock: the low 64 bits of the nanoseconds since the Unix
/// epoch, or 1 where the clock stands before it.
pub fn seed_now() -> (r: u64)
    ensures
        exists|clock: u128| #[trigger]
            clock_gave(clock) && r == clock % 0x1_0000_0000_0000_0000,
{
    low_bits(now_seed())
}

} // verus!
