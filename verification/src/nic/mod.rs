//! Network interfaces: their roles, their order, their counters, and how each system lists them.
pub mod classify;
pub mod counter;
pub mod host;
pub mod monitor;
pub mod registry;
pub mod scan_linux;
pub mod scan_macos;
pub mod scan_windows;
