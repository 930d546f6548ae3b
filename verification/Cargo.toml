[package]
name = "ocra"
version = "0.1.0"
edition = "2021"
publish = false

[dependencies]
async-trait = "0.1"
bytes = "=1.12.1"
chrono = { version = "0.4", default-features = false }
futures = "0.3"
moka = { version = "=0.12.16", features = ["sync"] }
num_cpus = "=1.17.0"
object_store = "=0.11.2"
sysinfo = "0.33"
tokio = { version = "1", features = ["sync"] }
