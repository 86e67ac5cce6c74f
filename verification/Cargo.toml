[package]
name = "conda_ship"
version = "0.9.0"
edition = "2021"
publish = false

[dependencies]
object = "=0.40.0"
sha2 = "=0.11.1"
serde = { version = "1", features = ["derive"] }
serde_json = "1"
clap = { version = "4", features = ["derive"] }
same-file = "1"
tempfile = "3"
fs4 = "=1.1.0"
miette = "=7.6.0"
tokio = { version = "1", features = ["rt-multi-thread", "net", "time", "io-util"] }
futures = "0.3"
reqwest = { version = "=0.13.5", default-features = false }
rattler_conda_types = { version = "=0.54.0", default-features = false }
rattler_lock = { version = "=0.33.1", default-features = false }
tar = "0.4"
zstd = "0.13"
