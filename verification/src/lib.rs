//! Reaper: a small orchestration library.
//!
//! The crate models a declarative configuration of tracked remote
//! repositories, persisted in a TOML document, together with a
//! priority-ordered task queue that sequences the program's startup work.

pub mod config;
pub mod state;
pub mod toml_text;

use vstd::prelude::*;

verus! {

/// The error kinds surfaced by the configuration store and the task
/// dispatcher.
#[derive(Debug, Clone, Copy, PartialEq, Eq, Structural)]
pub enum RprError {
    /// The configuration path does not exist.
    NotFound,
    /// A filesystem failure other than a missing path.
    IoError,
    /// Malformed TOML, or a field that does not match the schema.
    ParseError,
    /// An in-memory value could not be encoded.
    SerializeError,
    /// A task's command name matched no handler.
    UnknownCommand,
}

} // verus!
