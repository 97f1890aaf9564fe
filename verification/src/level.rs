//! Loudness values (velocities, gains, mix amounts) as exact fractions.
use vstd::prelude::*;

verus! {

/// Full level. A level `x` stands for `x / LEVEL_ONE`; every MIDI velocity
/// `v / 127` is a whole number of these parts.
pub const LEVEL_ONE: i32 = 1_270_000;

/// Parts of a full level in one MIDI velocity step.
pub const LEVEL_PER_VELOCITY: i32 = 10_000;

/// The velocity of a note drawn in the editor (0.8).
pub const DEFAULT_VELOCITY: i32 = 1_016_000;

/// The velocity of a preview note (0.9).
pub const PREVIEW_VELOCITY: i32 = 1_143_000;

/// Half level (0.5).
pub const LEVEL_HALF: i32 = 635_000;

/// `x` moved into the range from silence to full level.
pub open spec fn clamped_level(x: i32) -> i32 {
    if x < 0 {
        0
    } else if x > LEVEL_ONE {
        LEVEL_ONE
    } else {
        x
    }
}

/// Moves a level into the range from silence to full level.
pub fn clamp_level(x: i32) -> (r: i32)
    ensures
        r == clamped_level(x),
        0 <= r <= LEVEL_ONE,
{
    if x < 0 {
        0
    } else if x > LEVEL_ONE {
        LEVEL_ONE
    } else {
        x
    }
}

} // verus!
