//! Supervision logic for locally and remotely run development processes.

pub mod bytes;
pub mod clock;
pub mod command;
pub mod environment;
pub mod external;
pub mod guarantees;
pub mod invariants;
pub mod launchd;
pub mod laws;
pub mod logs;
pub mod lookup;
pub mod memory;
pub mod models;
pub mod order;
pub mod paths;
pub mod percent;
pub mod platform;
pub mod ports;
pub mod recovery;
pub mod requests;
pub mod restart;
pub mod runtime;
pub mod schedule;
pub mod signals;
pub mod start;
pub mod status;
pub mod stop;
pub mod text;
pub mod text_map;
pub mod text_set;
pub mod tracking;
pub mod windows_paths;
