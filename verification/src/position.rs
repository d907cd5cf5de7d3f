//! Positions on the globe, in fixed point.

use vstd::prelude::*;

verus! {

/// How many units of a coordinate make one degree: a unit is a hundredth of a
/// minute of arc.
pub const UNITS_PER_DEGREE: i32 = 6000;

/// A position. Both coordinates count hundredths of a minute of arc, north and
/// east positive, so 51 degrees 11.32 minutes north is 307132.
#[derive(Clone, Copy, Debug, PartialEq, Eq, Structural)]
pub struct Position {
    /// Latitude, north positive.
    pub latitude: i32,
    /// Longitude, east positive.
    pub longitude: i32,
}

} // verus!
