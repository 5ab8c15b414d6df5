//! Classification of one pixel's escape-time outcome and its mapping to a
//! pixel intensity.

use vstd::prelude::*;

verus! {

/// Outcome of iterating the escape recurrence for one point: either the
/// orbit exceeded the escape threshold at iteration index `n` (with
/// `n < limit`), or it stayed within the threshold for the whole budget.
#[derive(Clone, Copy, PartialEq, Eq, Structural, Debug)]
pub enum IterationResult {
    Divergent(u32),
    Bounded,
}

/// Capability set of a pixel intensity type: a default (minimum) value, a
/// maximum value, and a conversion from an iteration count. Making the
/// intensity mapping generic over this trait keeps it independent of the
/// chosen bit width.
pub trait Pixel: Sized + Copy {
    /// The pixel value that stands for the mathematical value `n`
    /// (meaningful for `n <= Self::spec_max()`).
    spec fn spec_from_nat(n: nat) -> Self;

    /// The numeric maximum of the pixel type.
    spec fn spec_max() -> nat;

    /// The maximum of every supported pixel type fits in an iteration count.
    proof fn max_fits_in_count()
        ensures
            Self::spec_max() <= u32::MAX as nat,
    ;

    /// The minimum (default) pixel value.
    fn min_value() -> (r: Self)
        ensures
            r == Self::spec_from_nat(0),
    ;

    /// The maximum pixel value.
    fn max_value() -> (r: Self)
        ensures
            r == Self::spec_from_nat(Self::spec_max()),
    ;

    /// The maximum pixel value, as an iteration count.
    fn max_as_count() -> (r: u32)
        ensures
            r as nat == Self::spec_max(),
    ;

    /// The pixel value standing for the count `n`.
    fn from_count(n: u32) -> (r: Self)
        requires
            n as nat <= Self::spec_max(),
        ensures
            r == Self::spec_from_nat(n as nat),
    ;
}

impl Pixel for u8 {
    open spec fn spec_from_nat(n: nat) -> u8 {
        n as u8
    }

    open spec fn spec_max() -> nat {
        u8::MAX as nat
    }

    proof fn max_fits_in_count() {
    }

    fn min_value() -> u8 {
        0
    }

    fn max_value() -> u8 {
        u8::MAX
    }

    fn max_as_count() -> u32 {
        u8::MAX as u32
    }

    fn from_count(n: u32) -> u8 {
        n as u8
    }
}

impl Pixel for u16 {
    open spec fn spec_from_nat(n: nat) -> u16 {
        n as u16
    }

    open spec fn spec_max() -> nat {
        u16::MAX as nat
    }

    proof fn max_fits_in_count() {
    }

    fn min_value() -> u16 {
        0
    }

    fn max_value() -> u16 {
        u16::MAX
    }

    fn max_as_count() -> u32 {
        u16::MAX as u32
    }

    fn from_count(n: u32) -> u16 {
        n as u16
    }
}

/// The intensity a pixel receives for an iteration outcome: bounded points
/// are drawn at the minimum value, and a point that diverged at iteration
/// `n` is drawn at `max - n`, so the fastest escapes are the brightest.
pub open spec fn escape_color_spec<P: Pixel>(result: IterationResult) -> P {
    match result {
        IterationResult::Bounded => P::spec_from_nat(0),
        IterationResult::Divergent(n) => P::spec_from_nat((P::spec_max() - n as nat) as nat),
    }
}

/// Map an iteration outcome to a pixel intensity.
///
/// A divergence count must lie below the pixel maximum, which callers
/// guarantee by running the escape iteration with a limit no larger than
/// that maximum.
pub fn escape_color<P: Pixel>(result: IterationResult) -> (r: P)
    requires
        result matches IterationResult::Divergent(n) ==> (n as nat) < P::spec_max(),
    ensures
        r == escape_color_spec::<P>(result),
{
    match result {
        IterationResult::Bounded => P::min_value(),
        IterationResult::Divergent(n) => {
            proof {
                P::max_fits_in_count();
            }
            let m: u32 = P::max_as_count();
            P::from_count(m - n)
        },
    }
}

} // verus!
