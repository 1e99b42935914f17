[package]
name = "todo_finder_lib"
version = "0.2.0"
edition = "2021"
publish = false

[dependencies]
async-channel = "=2.5.0"
clap = { version = "=4.6.7", features = ["derive"] }
console = "=0.16.6"
env_logger = "=0.11.11"
futures = "=0.3.34"
indicatif = "=0.18.6"
log = "=0.4.34"
octocrab = { version = "=0.47.1", features = ["stream"] }
serde = { version = "=1.0.229", features = ["derive"] }
snafu = "=0.8.9"
tokio = { version = "=1.54.1", features = ["fs", "io-util", "macros", "process", "rt-multi-thread", "time"] }

[dev-dependencies]
nom = "=8.0.0"
