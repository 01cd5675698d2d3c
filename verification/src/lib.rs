//! Contribution aggregation and epoch settlement for a mining pool.

pub mod address;
pub mod aggregator;
pub mod attribution;
pub mod config;
pub mod error;
pub mod instruction;
pub mod ledger;
pub mod loaders;
pub mod open;
pub mod scheduler;
pub mod stake;
pub mod state;
pub mod submit;
