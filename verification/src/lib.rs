//! Decoding of the per-process records that Linux publishes under `/proc`.
//!
//! The library takes the text of a record and gives back what it says: a
//! [`Process`] from a `stat` record, a [`Memory`] from a `statm` record, the
//! arguments from a `cmdline` record. It reads no file itself. Raw counters
//! are scaled by the two [`Constants`] of the system, the clock ticks in a
//! second and the size of a page.
//!
//! Every function states what it returns over a mathematical model of the
//! record, a sequence of characters: [`process::decoded`] and
//! [`memory::decoded`] say which records are refused, with which error, and
//! what the others mean.

pub mod cmdline;
pub mod constants;
pub mod decimal;
pub mod error;
pub mod listing;
pub mod memory;
pub mod process;
pub mod procfs;
pub mod stat;
pub mod state;
pub mod text;

pub use constants::Constants;
pub use error::Error;
pub use listing::{all, Source};
pub use memory::Memory;
pub use process::{Process, Seconds, GID, PID, UID};
pub use procfs::{entry_pid, pidfile_pid, procfs_path};
pub use state::State;
