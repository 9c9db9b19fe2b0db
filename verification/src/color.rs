//! The last step of a conversion to sRGB: channel values are brought into the
//! range of a byte. A value outside of it is clamped to the nearer end, never
//! wrapped around.

use vstd::prelude::*;

verus! {

/// The greatest value of a channel.
pub const CHANNEL_MAX: u8 = 255;

/// A channel value brought into the range of a byte.
pub open spec fn clamped(value: int) -> int {
    if value < 0 {
        0
    } else if value > CHANNEL_MAX {
        CHANNEL_MAX as int
    } else {
        value
    }
}

/// Clamps a channel value to a byte.
pub fn clamp_channel(value: i64) -> (channel: u8)
    ensures
        channel == clamped(value as int),
{
    if value < 0 {
        0
    } else if value > 255 {
        CHANNEL_MAX
    } else {
        value as u8
    }
}

/// Clamps the three channel values of a colour.
pub fn rgb_from_channels(channels: &[i64; 3]) -> (rgb: [u8; 3])
    ensures
        rgb@ == seq![
            clamped(channels[0] as int) as u8,
            clamped(channels[1] as int) as u8,
            clamped(channels[2] as int) as u8,
        ],
{
    let rgb: [u8; 3] = [
        clamp_channel(channels[0]),
        clamp_channel(channels[1]),
        clamp_channel(channels[2]),
    ];
    proof {
        assert(rgb@ =~= seq![
            clamped(channels[0] as int) as u8,
            clamped(channels[1] as int) as u8,
            clamped(channels[2] as int) as u8,
        ]);
    }
    rgb
}

/// Clamping keeps what is a byte already, and never leaves the range.
pub proof fn lemma_clamped_in_range(value: int)
    ensures
        0 <= clamped(value) <= CHANNEL_MAX,
        0 <= value <= CHANNEL_MAX ==> clamped(value) == value,
{
}

/// Clamping keeps the order of channel values.
pub proof fn lemma_clamped_monotonic(low: int, high: int)
    requires
        low <= high,
    ensures
        clamped(low) <= clamped(high),
{
}

} // verus!
