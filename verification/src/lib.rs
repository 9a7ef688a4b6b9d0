//! Control plane for a fleet of networked recorders.

pub mod answer_laws;
pub mod api;
pub mod configuration;
pub mod configuration_laws;
pub mod configuration_layers;
pub mod dash;
pub mod devices;
pub mod inventory;
pub mod memory;
pub mod model_laws;
pub mod operation_laws;
pub mod ordered;
pub mod protocol;
pub mod retention;
pub mod retention_laws;
pub mod rounding;
pub mod rounding_laws;
pub mod settings;
pub mod sorted;
pub mod sorted_laws;
pub mod status;
pub mod store;
pub mod sweeper;
pub mod sync;
pub mod text;
pub mod text_laws;
pub mod time;
pub mod time_laws;
pub mod units;
pub mod units_laws;
pub mod web;
pub mod wire_laws;
