//! The state that one aircraft last reported.

use vstd::prelude::*;
use crate::aircraft::{Aircraft, AircraftView};
use crate::position::Position;

verus! {

/// One aircraft's observed state. Speeds that the feed gives with decimals are
/// kept in fixed point, in hundred-thousandths of their unit.
#[derive(Debug)]
pub struct Status {
    /// The aircraft, as it was known when the status was decoded.
    pub aircraft: Aircraft,
    /// Where the aircraft is.
    pub position: Position,
    /// Speed over ground in km/h.
    pub speed: Option<u16>,
    /// Climb rate in hundred-thousandths of a metre per second.
    pub vertical_speed: Option<i64>,
    /// Altitude in metres.
    pub altitude: Option<u16>,
    /// Turn rate in hundred-thousandths of a turn per minute.
    pub turn_rate: Option<i64>,
    /// Course in degrees.
    pub course: Option<u16>,
    /// Unix time in seconds at which the status was decoded.
    pub time_stamp: u64,
}

/// The mathematical value of a [`Status`].
pub struct StatusView {
    pub aircraft: AircraftView,
    pub position: Position,
    pub speed: Option<u16>,
    pub vertical_speed: Option<i64>,
    pub altitude: Option<u16>,
    pub turn_rate: Option<i64>,
    pub course: Option<u16>,
    pub time_stamp: u64,
}

impl View for Status {
    type V = StatusView;

    open spec fn view(&self) -> StatusView {
        StatusView {
            aircraft: self.aircraft@,
            position: self.position,
            speed: self.speed,
            vertical_speed: self.vertical_speed,
            altitude: self.altitude,
            turn_rate: self.turn_rate,
            course: self.course,
            time_stamp: self.time_stamp,
        }
    }
}

impl Clone for Status {
    fn clone(&self) -> (copy: Self)
        ensures
            copy@ == self@,
    {
        Status {
            aircraft: self.aircraft.clone(),
            position: self.position,
            speed: self.speed,
            vertical_speed: self.vertical_speed,
            altitude: self.altitude,
            turn_rate: self.turn_rate,
            course: self.course,
            time_stamp: self.time_stamp,
        }
    }
}

} // verus!
