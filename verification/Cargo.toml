[package]
name = "autovoice"
version = "0.1.0"
edition = "2021"
publish = false

[dependencies]
fastrand = "*"
clap = { version = "*", features = ["derive", "env"] }
clap_complete = "*"
env_logger = "*"
futures = "*"
irc = "*"
log = "*"
tokio = { version = "*", features = ["macros", "rt-multi-thread", "sync", "time"] }
