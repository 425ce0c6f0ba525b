//! Process supervision and log aggregation for a fixed set of local services.

pub mod config;
pub mod database;
pub mod docker_manager;
pub mod hub;
pub mod keyed;
pub mod log_manager;
pub mod metrics;
pub mod models;
pub mod paths;
pub mod plain;
pub mod probe;
pub mod process_manager;
pub mod server;
pub mod service_detector;
pub mod state_persistence;
pub mod tail;
pub mod text;
pub mod timefmt;
