[package]
name = "cpe_bench"
version = "0.1.0"
edition = "2021"
publish = false

[dependencies]
regex = "1"
serde = { version = "1", features = ["derive"] }
serde_json = "1"
tiny_http = "0.12"
chrono = { version = "0.4", default-features = false, features = ["clock"] }
ctrlc = "3"
zip = { version = "2", default-features = false }
windows = { version = "0.58", features = ["Win32_Foundation", "Win32_NetworkManagement_IpHelper", "Win32_NetworkManagement_Ndis", "Win32_Networking_WinSock"] }
