//! The logic of a console performance monitor: its settings file, running
//! Tailscale totals, the snapshot that lets cumulative counters survive a
//! restart, and the text it writes to the console and to its CSV log.
pub mod config;
pub mod console;
pub mod csv;
pub mod format;
pub mod network;
pub mod readback;
pub mod snapshot;
pub mod tailscale;
pub mod text;
pub mod time;
pub mod types;
