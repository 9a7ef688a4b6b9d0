//! The recorder's line protocol: what is written to a device, and how its
//! answers are read.

pub mod commands;
pub mod instructions;
pub mod laws;
pub mod payload_helpers;
pub mod register;
pub mod states;
pub mod value;
