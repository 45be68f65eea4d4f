//! A desktop reminder journal: on a fixed interval a prompt window pops up,
//! the user writes a short entry, and submitting it appends one timestamped
//! JSON record to an append-only log file.
//!
//! This crate is the verified core of that program: the prompt state machine
//! that guarantees at most one pending prompt, the JSON line format of the
//! journal file, and the command-line configuration. The window toolkit, the
//! timer and the file system are external collaborators driven by a thin
//! unverified shell.

pub mod codec;
pub mod config;
pub mod journal;
pub mod machine;
