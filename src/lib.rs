//! Event-sourced core of a small library-management service: domain types,
//! command validation, an append-only event log and the projections built
//! from it.

pub mod application;
pub mod error;
pub mod event;
pub mod ids;
pub mod keywords;
pub mod laws;
pub mod model;
pub mod query;
pub mod store;
pub mod table;
pub mod text;
pub mod write_model;
