//! An interactive launcher's process lifecycle tracker.
//!
//! The library holds the decisions of the launcher: how a command line is
//! cut into a program and its arguments, when an observed process counts as
//! alive, which tracked processes are reaped, how the catalog of commands is
//! read from the configuration and laid out, and what each key does to the
//! session. Spawning, signalling,
//! querying the operating system and drawing are the host's part: the host
//! reports what it saw, and performs what the library asks for.

pub mod catalog;
pub mod child;
pub mod config;
pub mod embed;
pub mod registry;
pub mod session;
pub mod text;
