[package]
name = "mux"
version = "0.1.0"
edition = "2021"
publish = false

[dependencies]
anyhow = "1.0"
crossbeam = "0.8"
lazy_static = "1.4"
log = "0.4"
metrics = "0.23"
names = { version = "0.12", default-features = false }
parking_lot = "0.12"
percent-encoding = "2.3"
thiserror = "1.0"
winapi = { version = "0.3", features = ["processthreadsapi", "synchapi", "winbase", "minwinbase", "minwindef", "winerror", "winnt"] }
