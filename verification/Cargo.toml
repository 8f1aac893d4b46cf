[package]
name = "bible_presenter"
version = "0.1.0"
edition = "2021"
publish = false

[dependencies]
anyhow = "*"
cpal = "*"
ndarray = "*"
ndarray-npy = "*"
num_cpus = "*"
parking_lot = "*"
rubato = "*"
rusqlite = { version = "*", features = ["bundled"] }
serde = { version = "*", features = ["derive"] }
serde_json = "*"
tokenizers = "*"
tokio = { version = "*", features = ["rt-multi-thread", "sync", "macros", "time"] }
whisper-rs = "*"
ort = "=2.0.0-rc.13"
