//! A configuration-driven file-watch-and-dispatch engine.
//!
//! A project carries a declarative descriptor that names modules, each with
//! glob patterns for the files it cares about and shell commands to run when
//! one of them changes, together with a registry of named commands for direct
//! invocation.  The library parses the descriptor, matches changed paths
//! against the modules, plans the commands to run, and models the watch loop
//! as an explicit state machine; the surrounding binary performs the actual
//! file, process and watcher I/O.

pub mod command;
pub mod engine;
pub mod error;
pub mod parser;
pub mod pattern;
pub mod project;
pub mod prown;
