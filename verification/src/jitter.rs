//! Durations with a random extension, and the two decisions that a random
//! draw settles: how long a unit of work takes and whether a filter keeps a
//! unit.
//!
//! A draw is a `u32` that stands for the fraction `draw / 2^32` of the unit
//! interval. Fractions that a caller configures are given in thousandths.

use vstd::prelude::*;

verus! {

/// Number of values that a draw can take.
pub const DRAW_SPAN: u64 = 0x1_0000_0000;

/// Denominator of the configured fractions.
pub const PER_MILLE: u32 = 1000;

/// A nominal duration in milliseconds, and by how much a sample may exceed
/// it: `jitter` thousandths of the nominal value at most.
#[derive(Clone, Copy, Debug, PartialEq, Eq, Structural)]
pub struct JitteringDuration {
    pub duration: u64,
    pub jitter: u32,
}

/// The extension that `draw` adds to `base` milliseconds under `jitter`
/// thousandths: `base * (jitter / 1000) * (draw / 2^32)`, rounded down.
pub open spec fn spec_extension(base: u64, jitter: u32, draw: u32) -> nat {
    ((base as nat) * (jitter as nat) * (draw as nat)) / (1000 * 0x1_0000_0000)
}

/// A filter with retain ratio `ratio` (in thousandths) keeps a unit exactly
/// when the draw, as a fraction, lies below the ratio.
pub open spec fn spec_retains(ratio: u32, draw: u32) -> bool {
    (draw as nat) * 1000 < (ratio as nat) * 0x1_0000_0000
}

/// Whether a filter with retain ratio `ratio` keeps a unit on `draw`.
#[verifier::when_used_as_spec(spec_retains)]
pub fn retains(ratio: u32, draw: u32) -> (keep: bool)
    ensures
        keep == spec_retains(ratio, draw),
        ratio == 0 ==> !keep,
        ratio >= 1000 ==> keep,
{
    let lhs: u64 = (draw as u64) * 1000;
    assert((ratio as u64) * 0x1_0000_0000 <= 0xFFFF_FFFF * 0x1_0000_0000) by (nonlinear_arith)
        requires
            ratio <= 0xFFFF_FFFFu32,
    ;
    let rhs: u64 = (ratio as u64) * DRAW_SPAN;
    proof {
        if ratio >= 1000 {
            assert((ratio as nat) * 0x1_0000_0000 >= 1000 * 0x1_0000_0000) by (nonlinear_arith)
                requires
                    ratio >= 1000,
            ;
        }
    }
    lhs < rhs
}

/// Draws a `u32` from the thread-local generator by `rand::random`. Every
/// value may come back, and two calls need not agree.
#[verifier::external_body]
pub(crate) fn random_draw() -> (draw: u32) {
    rand::random::<u32>()
}

impl JitteringDuration {
    /// The duration that `draw` selects: the nominal value plus the
    /// extension, capped at the largest representable value.
    pub open spec fn spec_jittered(&self, draw: u32) -> u64 {
        let total = self.duration as nat + spec_extension(self.duration, self.jitter, draw);
        if total > u64::MAX {
            u64::MAX
        } else {
            total as u64
        }
    }

    pub fn from_millis(millis: u64, jitter: u32) -> (d: Self)
        ensures
            d.duration == millis,
            d.jitter == jitter,
    {
        JitteringDuration { duration: millis, jitter }
    }

    /// The duration, in milliseconds, that `draw` selects.
    #[verifier::when_used_as_spec(spec_jittered)]
    pub fn jittered(&self, draw: u32) -> (millis: u64)
        ensures
            millis == self.spec_jittered(draw),
            millis >= self.duration,
            self.jitter == 0 || draw == 0 ==> millis == self.duration,
    {
        let base: u128 = self.duration as u128;
        let jitter: u128 = self.jitter as u128;
        let fraction: u128 = draw as u128;
        assert(base * jitter <= 0xFFFF_FFFF_FFFF_FFFF * 0xFFFF_FFFF) by (nonlinear_arith)
            requires
                base <= 0xFFFF_FFFF_FFFF_FFFF,
                jitter <= 0xFFFF_FFFF,
        ;
        let scaled: u128 = base * jitter;
        assert(scaled * fraction <= 0xFFFF_FFFF_FFFF_FFFF * 0xFFFF_FFFF * 0xFFFF_FFFF)
            by (nonlinear_arith)
            requires
                scaled <= 0xFFFF_FFFF_FFFF_FFFF * 0xFFFF_FFFF,
                fraction <= 0xFFFF_FFFF,
        ;
        let product: u128 = scaled * fraction;
        let extension: u128 = product / 4_294_967_296_000u128;
        proof {
            assert(product == (self.duration as nat) * (self.jitter as nat) * (draw as nat));
            assert(extension == spec_extension(self.duration, self.jitter, draw));
            if self.jitter == 0 || draw == 0 {
                assert(scaled * fraction == 0) by (nonlinear_arith)
                    requires
                        scaled == base * jitter,
                        jitter == 0 || fraction == 0,
                ;
            }
        }
        let total: u128 = base + extension;
        if total > 0xFFFF_FFFF_FFFF_FFFFu128 {
            u64::MAX
        } else {
            total as u64
        }
    }

    /// A fresh sample: the duration that a random draw selects.
    pub fn get(&self) -> (millis: u64)
        ensures
            exists|draw: u32| millis == self.spec_jittered(draw),
            millis >= self.duration,
            self.jitter == 0 ==> millis == self.duration,
    {
        let draw: u32 = random_draw();
        self.jittered(draw)
    }
}

} // verus!
