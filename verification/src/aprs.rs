//! The APRS feed: matching and decoding of its lines, and the client's decisions.

pub mod client;
pub mod conversion;
pub mod fields;
pub mod flags;
pub mod matcher;
pub mod status;
