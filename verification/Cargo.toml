[package]
name = "marchive"
version = "0.1.0"
edition = "2021"
publish = false

[dependencies]
regex = "1"
chrono = "0.4"
clap = { version = "4", features = ["derive"] }
serde = { version = "1", features = ["derive"] }
toml = "0.8"
tokio = { version = "1", features = ["rt-multi-thread", "macros", "signal"] }
libc = "0.2"
errno = "0.3"
threadpool = "1"
rusqlite = "*"
