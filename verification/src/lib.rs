//! The store behind durable evals: what a run, a step, a dataset task, a memo and a trace event
//! are, and what every request does to them.
pub mod csv;
pub mod datasets;
pub mod digest;
pub mod error;
pub mod export;
pub mod failure;
pub mod history;
pub mod jitter;
pub mod json;
pub mod laws;
pub mod ledger;
pub mod live;
pub mod order;
pub mod registry;
pub mod report;
pub mod retry;
pub mod rows;
pub mod steps;
pub mod table;
pub mod tasks;
pub mod text;
pub mod time;
pub mod traces;
pub mod types;
pub mod unified;
pub mod work;
