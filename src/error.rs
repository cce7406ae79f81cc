use vstd::prelude::*;

verus! {

/// Why a noise generator refused its parameters.
#[derive(Debug, Clone, Copy, PartialEq, Eq, Structural)]
pub enum NoiseError {
    /// The buffer has no pixels.
    ZeroArea,
    /// Fewer control points or cells than the generator needs.
    TooFewPoints,
    /// More cells along an axis than pixels, or more control points than a `u32` counts.
    TooManyPoints,
    /// The buffer would not fit in memory (`3 * width * height` overflows `usize`).
    TooLarge,
}

/// A `width` by `height` buffer can be allocated.
pub open spec fn fits(width: int, height: int) -> bool {
    3 * width * height <= usize::MAX
}

/// Checks that a `width` by `height` buffer is neither empty nor too large.
pub fn check_area(width: u32, height: u32) -> (r: Result<(), NoiseError>)
    ensures
        r == if width == 0 || height == 0 {
            Err(NoiseError::ZeroArea)
        } else if !fits(width as int, height as int) {
            Err(NoiseError::TooLarge)
        } else {
            Ok(())
        },
{
    if width == 0 || height == 0 {
        return Err(NoiseError::ZeroArea);
    }
    let w = width as u128;
    let h = height as u128;
    assert(3 * w * h <= 3 * 0xffff_ffff * 0xffff_ffff) by (nonlinear_arith)
        requires w <= 0xffff_ffff, h <= 0xffff_ffff;
    if 3 * w * h > usize::MAX as u128 {
        Err(NoiseError::TooLarge)
    } else {
        Ok(())
    }
}

} // verus!
