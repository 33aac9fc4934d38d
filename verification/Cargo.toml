[package]
name = "piccp"
version = "0.1.0"
edition = "2021"
publish = false

[dependencies]
bytes = "1"
clap = { version = "3", features = ["derive", "env"] }
crossterm = { version = "0.23", features = ["event-stream"] }
futures = "0.3"
image = { version = "0.23", default-features = false, features = ["jpeg"] }
nokhwa = { version = "0.10", default-features = false }
qrcode = { version = "0.12", default-features = false }
quircs = "0.10"
tokio = { version = "1", features = ["full"] }
tui = "0.18"
