//! Tracking of aircraft that report over an APRS feed: decoding of feed lines,
//! the store of the latest status per aircraft, and the decisions of the feed client.

pub mod aircraft;
pub mod api;
pub mod aprs;
pub mod ddb;
pub mod position;
pub mod registry;
pub mod text;
pub mod time;
