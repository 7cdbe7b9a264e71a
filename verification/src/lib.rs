//! An in-process mediator: a central dispatcher that owns an ordered list
//! of pluggable services, routes type-tagged messages to the earliest
//! registered service declaring support for the tag, manages the services'
//! start/stop lifecycle fail-fast and in registration order, and carries
//! events out of a unit of work through per-context FIFO channels.

pub mod common;
pub mod environment;
pub mod mediator;
pub mod service;

pub use common::Message;
