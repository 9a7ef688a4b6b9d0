//! The devices and groups of the fleet: as a document writes them, as they
//! resolve, and how the document is edited while the server runs.

pub mod config;
pub mod config_laws;
pub mod edit;
pub mod edit_laws;
pub mod export;
pub mod fleet_laws;
pub mod refusal;
pub mod removal;
pub mod summary;
