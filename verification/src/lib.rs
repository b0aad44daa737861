//! Deterministic, headless simulation kernel for persistent sandbox worlds.
//!
//! The crate holds the verified core of the kernel: the primitive value types,
//! commands and events, input validation, the world state and its pure event
//! applier, the command-driven simulation, canonical state hashing, snapshot
//! validation, the write-ahead-log record codec and the crash-recovery rules.
pub mod types;
pub mod text;
pub mod commands;
pub mod events;
pub mod errors;
pub mod validation;
pub mod keyed;
pub mod world;
pub mod replay;
pub mod sim;
pub mod laws;
pub mod indexing;
pub mod equivalence;
pub mod determinism;
pub mod canonical;
pub mod hash;
pub mod rng;
pub mod wal;
pub mod snapshot;
pub mod persistence;
pub mod runtime;
pub mod migrations;
