//! The in-memory side of the store: the outbox of writes, the recorded reads, and
//! the catalog of devices.

pub mod catalog;
pub mod outbox;
pub mod outbox_laws;
pub mod outbox_model;
pub mod outbox_order;
pub mod outbox_timing;
pub mod reading_laws;
pub mod store;
pub mod store_laws;
pub mod store_model;
