[package]
name = "riscv_emu"
version = "0.1.0"
edition = "2021"
publish = false

[dependencies]
bincode = "1"
clap = { version = "4", features = ["derive"] }
flate2 = "1"
serde = { version = "1", features = ["derive"] }
thiserror = "1"
tracing = "0.1"
tracing-subscriber = "0.3"
