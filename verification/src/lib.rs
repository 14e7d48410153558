//! Persistence and query core of a personal time tracker.
//!
//! Work is organised in named tasks; every finished work session is an
//! event (timestamp, duration, optional notes) owned by exactly one task.
//! The [`store::Store`] keeps the two tables — tasks and events — as plain
//! in-memory rows, resolves task names to stable identifiers, appends
//! events, and answers the read queries (lists, joins, per-task totals).
//! Callers that keep the rows in a file load them through
//! [`store::Store::from_rows`] and write freshly created rows back out.

pub mod format;
pub mod laws;
pub mod model;
pub mod store;
pub mod types;
