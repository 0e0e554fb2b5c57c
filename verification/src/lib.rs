//! Session and process orchestration core of a terminal multiplexer.
//!
//! A *domain* is a named execution backend that can spawn terminal
//! sessions (panes), arrange them into containers (tabs), and split an
//! existing session into two.  This crate holds the backend-independent
//! algorithms for spawning and splitting, the command-construction
//! pipeline with its three backend-specific fixup strategies, and the
//! local backend that ties a session to a pseudo-terminal.
//!
//! External collaborators (the pseudo-terminal subsystem, the script
//! engine that runs user callbacks, the file system) are reached through
//! a host port: their outcomes enter as plain values, and every decision
//! taken on those outcomes is verified.

pub mod command;
pub mod config;
pub mod domain;
pub mod errors;
pub mod ids;
pub mod laws;
pub mod registry;
