//! Importing a configuration undoes compiling one.
pub mod pins;
pub mod rows;
pub mod settings;
pub mod tcp;
pub mod tidy;
pub mod udp;
