//! The numeric score a backend reply carries, and the clamping that prepares
//! it for color mapping.
//!
//! The accepted numeric grammar allows fractional values, so a score is kept
//! in fixed point: thousandths of a score unit. Values far outside the
//! displayable range carry no extra meaning (display clamps to `[0, 100]`),
//! so parsing saturates their magnitude at [`SCORE_MILLI_MAX`].

use vstd::prelude::*;

verus! {

/// Largest magnitude, in thousandths, a parsed score can take.
pub const SCORE_MILLI_MAX: i64 = 1_000_000_000_000;

/// Thousandths corresponding to the top of the displayable range (score 100).
pub const CLAMP_MILLI_TOP: u32 = 100_000;

/// A score in thousandths of a score unit: `milli == 92_500` means 92.5.
#[derive(Clone, Copy, Debug, PartialEq, Eq, Structural)]
pub struct Score {
    pub milli: i64,
}

impl Score {
    /// Every score the parser produces stays within the saturation bound.
    pub open spec fn wf(self) -> bool {
        -SCORE_MILLI_MAX <= self.milli <= SCORE_MILLI_MAX
    }
}

/// The clamped value, in thousandths, that the display color is computed
/// from: scores below 0 clamp to 0, scores above 100 clamp to 100.
pub open spec fn clamp_milli_spec(milli: int) -> int {
    if milli < 0 {
        0
    } else if milli > CLAMP_MILLI_TOP as int {
        CLAMP_MILLI_TOP as int
    } else {
        milli
    }
}

impl Score {
    /// The value the color gradient is sampled at, in thousandths of a score
    /// unit. The displayed color depends on the score only through this
    /// value, so two scores with equal clamped thousandths get equal colors.
    pub fn clamped_milli(self) -> (m: u32)
        ensures
            m == clamp_milli_spec(self.milli as int),
    {
        if self.milli < 0 {
            0
        } else if self.milli > CLAMP_MILLI_TOP as i64 {
            CLAMP_MILLI_TOP
        } else {
            self.milli as u32
        }
    }
}

/// Clamping saturates: every score at or below 0 clamps to what 0 clamps to,
/// and every score at or above 100 clamps to what 100 clamps to. Since the
/// display color is a function of the clamped value alone, such scores are
/// rendered in the same color as the range ends.
pub proof fn lemma_clamp_saturates(a: int, b: int)
    requires
        a <= 0 || a >= CLAMP_MILLI_TOP,
        b <= 0 || b >= CLAMP_MILLI_TOP,
        a <= 0 <==> b <= 0,
    ensures
        clamp_milli_spec(a) == clamp_milli_spec(b),
{
}

} // verus!
