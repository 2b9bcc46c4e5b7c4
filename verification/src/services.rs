//! The services shipped with the core: a timestamping service and the
//! configuration-voting service that governs validator-set changes.

pub mod configuration;
pub mod timestamping;
