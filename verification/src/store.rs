//! The contracts between what is recorded and who records it: admission of
//! writes, what a group was told, and what a store failure means.

pub mod error;
pub mod group;
pub mod lifecycle;
pub mod outbox;
