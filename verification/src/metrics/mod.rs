//! What is remembered of the resources that units use.

pub mod bucket;
pub mod budget;
pub mod complete;
pub mod laws;
pub mod order;
pub mod settings;
pub mod spillover;
pub mod store;
pub mod targets;
pub mod whole;

pub use settings::{MetricsSettings, SpilloverSettings};
pub use store::MetricsStore;
pub use targets::{gather_unit_targets, UnitTarget};
