//! Arcanum: an event-sourced app runtime. This crate holds the runtime's
//! verified core: identifiers and their textual forms, the proposal
//! scheduler and the writes that keep its saved copy in step, the chunk log,
//! key/value state, the content-addressed package store and package
//! versions, configuration, the management protocol, the shell's parsing,
//! the decisions of the actors and front ends, and the laws that relate them.

pub mod text;

pub mod types;
pub mod assoc;
pub mod scheduler;
pub mod persist;
pub mod log;
pub mod in_memory;
pub mod shell;
pub mod config;
pub mod state;
pub mod store;
pub mod package;
pub mod version;
pub mod dispatch;
pub mod actor;
pub mod mgmt;
pub mod laws;
