//! What the operations are for, said of their inputs and results alone.
pub mod baseline;
pub mod classify;
pub mod compile;
pub mod complaints;
pub mod console;
pub mod http;
pub mod import;
pub mod lists;
pub mod matrix;
pub mod monitor;
pub mod number;
pub mod order;
pub mod ping;
pub mod protocol;
pub mod rate;
pub mod reason;
pub mod recipes;
pub mod scan_linux;
pub mod scan_macos;
pub mod scan_windows;
pub mod sessions;
pub mod settings;
pub mod suite;
pub mod text;
pub mod thresholds;
pub mod units;
pub mod url;
pub mod validate;
pub mod validate_plan;
pub mod wifi;
