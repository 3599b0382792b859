[package]
name = "nereid"
version = "0.1.0"
edition = "2021"
publish = false

[dependencies]
anyhow = "=1.0.104"
arrow = { version = "=57.3.2", default-features = false, features = ["ipc"] }
bytes = "=1.12.1"
clap = { version = "=4.6.7", features = ["derive", "env"] }
egui = { version = "=0.33.3", default-features = false }
futures = "=0.3.34"
object_store = { version = "=0.12.5", features = ["aws"] }
ogg = "=0.9.2"
parking_lot = "=0.12.5"
rubato = "=0.16.2"
sha2 = "=0.10.9"
thiserror = "=2.0.21"
tokio = { version = "=1.54.1", features = ["macros", "rt-multi-thread", "signal", "sync", "time"] }
tracing = "=0.1.44"
