//! The configuration that the flocking rules read during one step.
use vstd::prelude::*;

verus! {

/// Denominator of the rule factors: a factor of `FACTOR_SCALE` weighs a rule fully.
pub const FACTOR_SCALE: i64 = 1000;

/// Largest distance or speed a setting may hold.
pub const RANGE_LIMIT: i64 = 1048576;

/// Settings of the flock, read-only during a step. Distances and speeds are in
/// world units; the factors are in thousandths.
#[derive(Clone, Copy, Debug, PartialEq, Eq, Structural)]
pub struct Settings {
    pub min_distance: i64,
    pub max_speed: i64,
    pub visible_range: i64,
    pub cohesion_factor: i64,
    pub alignment_factor: i64,
    pub separation_factor: i64,
}

/// A factor the rules accept: at most one whole in either direction.
pub open spec fn factor_ok(f: int) -> bool {
    -FACTOR_SCALE <= f <= FACTOR_SCALE
}

impl Settings {
    /// Positive distances and speed within `RANGE_LIMIT`, factors within `FACTOR_SCALE`.
    pub open spec fn valid(self) -> bool {
        &&& 0 < self.min_distance <= RANGE_LIMIT
        &&& 0 < self.max_speed <= RANGE_LIMIT
        &&& 0 < self.visible_range <= RANGE_LIMIT
        &&& factor_ok(self.cohesion_factor as int)
        &&& factor_ok(self.alignment_factor as int)
        &&& factor_ok(self.separation_factor as int)
    }

    /// Whether these settings are ones the rules accept.
    pub fn is_valid(&self) -> (r: bool)
        ensures
            r == self.valid(),
    {
        0 < self.min_distance && self.min_distance <= RANGE_LIMIT && 0 < self.max_speed
            && self.max_speed <= RANGE_LIMIT && 0 < self.visible_range && self.visible_range
            <= RANGE_LIMIT && -FACTOR_SCALE <= self.cohesion_factor && self.cohesion_factor
            <= FACTOR_SCALE && -FACTOR_SCALE <= self.alignment_factor && self.alignment_factor
            <= FACTOR_SCALE && -FACTOR_SCALE <= self.separation_factor && self.separation_factor
            <= FACTOR_SCALE
    }
}

} // verus!
