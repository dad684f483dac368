//! Core of an agent-oriented issue tracker: a store of issues, notes and
//! configuration entries, a dependency-graph engine that keeps the blocking
//! relation acyclic, an urgency scoring engine over a configurable weight
//! set, and a consistency auditor.

pub mod doctor;
pub mod error;
pub mod graph;
pub mod listing;
pub mod models;
pub mod store;
pub mod textfmt;
pub mod types;
pub mod urgency;
pub mod util;
