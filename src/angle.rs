use vstd::prelude::*;

verus! {

/// An angle in degrees, held as what the regionalization reads of it: its
/// sign, the whole degrees of its magnitude, and whether a fractional part
/// of a degree remains beyond them.
///
/// `-12.5` is `{ below_zero: true, whole: 12, fraction: true }`; zero is
/// never below zero.
#[derive(Clone, Copy, Debug, PartialEq, Eq)]
pub struct Angle {
    /// The angle is strictly less than zero.
    pub below_zero: bool,
    /// The magnitude truncated to whole degrees.
    pub whole: u64,
    /// The magnitude is not a whole number of degrees.
    pub fraction: bool,
}

impl Angle {
    /// The magnitude exceeds `limit` degrees.
    pub open spec fn exceeds(self, limit: int) -> bool {
        self.whole > limit || (self.whole == limit && self.fraction)
    }

    /// The angle lies on or east of (on or above) zero.
    pub open spec fn at_or_above_zero(self) -> bool {
        !self.below_zero
    }

    /// Builds an angle from its parts.
    pub fn new(below_zero: bool, whole: u64, fraction: bool) -> (r: Angle)
        ensures
            r.below_zero == below_zero,
            r.whole == whole,
            r.fraction == fraction,
    {
        Angle { below_zero, whole, fraction }
    }

    /// The magnitude exceeds `limit` degrees.
    pub fn magnitude_exceeds(&self, limit: u64) -> (r: bool)
        ensures
            r == self.exceeds(limit as int),
    {
        self.whole > limit || (self.whole == limit && self.fraction)
    }
}

/// A longitude of magnitude at most 360 degrees, brought into [-180, 180] by
/// one full turn where it lies beyond: 360 is added below -180, and taken
/// away above 180.
///
/// The turn is exact: `x + 360` for `x` in [-360, -180) has magnitude
/// `360 - |x|`, whose whole degrees are `359 - whole` when a fraction
/// remains and `360 - whole` otherwise.
pub open spec fn normalized(lon: Angle) -> Angle
    recommends
        !lon.exceeds(360),
{
    if lon.exceeds(180) {
        let whole: u64 = if lon.fraction { (359 - lon.whole) as u64 } else { (360 - lon.whole) as u64 };
        let below_zero = if lon.below_zero {
            false
        } else {
            lon.whole < 360 || lon.fraction
        };
        Angle { below_zero, whole, fraction: lon.fraction }
    } else {
        lon
    }
}

/// Brings a longitude of magnitude at most 360 degrees into [-180, 180].
pub fn normalize_longitude(lon: Angle) -> (r: Angle)
    requires
        !lon.exceeds(360),
    ensures
        r == normalized(lon),
        !r.exceeds(180),
{
    if lon.magnitude_exceeds(180) {
        let whole: u64 = if lon.fraction { 359 - lon.whole } else { 360 - lon.whole };
        let below_zero = if lon.below_zero {
            false
        } else {
            lon.whole < 360 || lon.fraction
        };
        Angle { below_zero, whole, fraction: lon.fraction }
    } else {
        lon
    }
}

} // verus!
