[package]
name = "tar_object_store"
version = "0.1.0"
edition = "2021"
publish = false

[dependencies]
regex = "=1.13.1"
chrono = { version = "=0.4.38", features = ["rkyv", "rkyv-validation"] }
object_store = "=0.7.1"
tar = "=0.4.46"
rkyv = { version = "=0.7.46", features = ["validation"] }
bytes = "=1.12.1"
futures = "=0.3.34"
async-trait = "=0.1.92"
tokio = { version = "=1.54.1", features = ["rt-multi-thread", "io-util"] }
clap = { version = "=4.6.7", features = ["derive"] }
sysinfo = "=0.29.11"
rayon = "=1.12.0"
approx = "=0.5.1"
datafusion = { version = "=32.0.0", default-features = false }
url = "=2.5.8"
serde_json = "=1.0.154"
arrow-schema = { version = "=47.0.0", features = ["serde"] }
