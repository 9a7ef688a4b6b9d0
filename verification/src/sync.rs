//! Keeping the store in step with the fleet: what to poll, how often, and what
//! to make of each poll.

pub mod auto_disabled;
pub mod dto;
pub mod health;
pub mod pairs;
pub mod poll;
pub mod polling_laws;
pub mod schedule;
pub mod schedule_laws;
pub mod supervisor;
