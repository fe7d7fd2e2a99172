//! Random timing jitter: how a raw random word becomes a delay within a
//! caller-given range.

use vstd::prelude::*;

verus! {

/// Why a random value could not be produced.
#[derive(Debug, Clone, Copy, PartialEq, Eq, Structural)]
pub enum RandomError {
    /// The minimum of the requested range is greater than its maximum.
    InvalidRange,
}

/// Fewest cycles of the default jitter window.
pub const JITTER_MIN_CYCLES: u32 = 10;

/// Most cycles of the default jitter window.
pub const JITTER_MAX_CYCLES: u32 = 50;

/// The value of `[min, max]` that the raw word `raw` selects: `min` plus the
/// remainder of `raw` by the number of values in the range.
pub open spec fn scaled(raw: u32, min: u32, max: u32) -> int {
    min + (raw as int) % (max - min + 1)
}

/// Every raw word selects a value inside the range.
pub proof fn lemma_scaled_in_range(raw: u32, min: u32, max: u32)
    requires
        min <= max,
    ensures
        min <= scaled(raw, min, max) <= max,
{
}

/// On the range of all 32-bit words, each raw word selects itself; on a
/// range of one value, every raw word selects that value.
pub proof fn lemma_scaled_extremes(raw: u32, value: u32)
    ensures
        scaled(raw, 0, u32::MAX) == raw,
        scaled(raw, value, value) == value,
{
    vstd::arithmetic::div_mod::lemma_small_mod(raw as nat, 0x1_0000_0000);
}

/// Maps the raw random word `raw` into `[min, max]`, or refuses a range whose
/// minimum exceeds its maximum.
pub fn scale_to_range(raw: u32, min: u32, max: u32) -> (r: Result<u32, RandomError>)
    ensures
        min > max ==> r == Err::<u32, RandomError>(RandomError::InvalidRange),
        min <= max ==> r == Ok::<u32, RandomError>(scaled(raw, min, max) as u32),
        r matches Ok(v) ==> min <= v <= max,
{
    if min > max {
        return Err(RandomError::InvalidRange);
    }
    let span: u64 = (max - min) as u64 + 1;
    let offset: u64 = raw as u64 % span;
    Ok((min as u64 + offset) as u32)
}

} // verus!
