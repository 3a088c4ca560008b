//! Shared registry of bench power supplies.
//!
//! The registry caches the last-known state of every supply and lends out each
//! supply's connection to one actor at a time, so that slow serial I/O never runs
//! while the registry itself is locked.
pub mod config;
pub mod laws;
pub mod registry;
pub mod state;
