[package]
name = "mp_logger"
version = "0.1.0"
edition = "2021"
publish = false

[dependencies]
clap = { version = "=4.6.7", features = ["derive"] }
crossterm = "=0.25.0"
log = { version = "=0.4.34", features = ["std"] }
nix = { version = "=0.27.1", features = ["event", "process", "pthread"] }
tui = { version = "=0.19.0", default-features = false, features = ["crossterm"] }
