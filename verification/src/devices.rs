//! Talking to a device: the exchange over an open channel, and what goes wrong.

pub mod controller;
pub mod device;
pub mod registry;
pub mod transport;
