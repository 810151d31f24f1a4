//! The decision logic of a network test bench: what the console's user may ask for, which tests
//! that compiles to, how interfaces are named and ranked, and how tool output is read.

pub mod address;
pub mod baseline;
pub mod compile;
pub mod config;
pub mod console;
pub mod coverage;
pub mod drafts;
pub mod http;
pub mod import;
pub mod json;
pub mod laws;
pub mod meaning;
pub mod model;
pub mod nic;
pub mod number;
pub mod pattern;
pub mod ping;
pub mod plan;
pub mod protocol;
pub mod rate;
pub mod readings;
pub mod reason;
pub mod round_trip;
pub mod runs;
pub mod sessions;
pub mod suite;
pub mod suite_plan;
pub mod sweep;
pub mod text;
pub mod units;
pub mod url;
pub mod validate;
pub mod validate_plan;
pub mod wifi;
pub mod wifi_targets;

