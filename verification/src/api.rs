//! What the query surface reads: the store of the latest status per aircraft.

pub mod state;
