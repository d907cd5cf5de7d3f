//! The aircraft registry as the OGN device database hands it out.

pub mod conversion;
