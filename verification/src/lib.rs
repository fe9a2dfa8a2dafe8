//! Core of a small line-oriented key-value server.
//!
//! The library holds the server's data and decision logic, verified: the
//! shared store behind a reader-writer lock, the command parser, the
//! dispatcher that turns one parsed command into one store operation and
//! one response line, and the decision rules and custody model of the
//! fixed worker pool. The surrounding process (sockets, threads, the
//! listener loop) performs only I/O and calls into these functions.

pub mod controller;
pub mod error;
pub mod model;
pub mod pool;
