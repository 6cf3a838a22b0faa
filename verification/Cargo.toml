[package]
name = "audio_engine_core"
version = "0.1.0"
edition = "2021"
publish = false

[dependencies]
anyhow = "=1.0.104"
chardetng = "=0.1.17"
encoding_rs = "=0.8.44"
image = { version = "=0.25.10", default-features = false, features = ["jpeg", "png"] }
libc = "=0.2.191"
once_cell = "=1.21.4"
parking_lot = "=0.12.5"
rustfft = "=6.4.1"
rustysynth = "=1.3.8"
serde = { version = "=1.0.229", features = ["derive"] }
thiserror = "=2.0.21"
tracing = "=0.1.44"
