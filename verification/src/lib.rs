//! Decision logic of a supervisor for a single long-running companion process
//! ("the bridge"): how to launch it, how to keep the one process slot, how to
//! frame what is written to it and how to turn what it prints into events.
//!
//! Nothing here touches the operating system. The caller performs each action
//! (spawn, write, kill, read) and hands the outcome back as plain values.

pub mod error;
pub mod forward;
pub mod launch;
pub mod registry;
pub mod resolver;
pub mod supervisor;
