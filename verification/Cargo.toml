[package]
name = "rxscan"
version = "1.0.1"
edition = "2021"
publish = false

[dependencies]
regex = "1"
clap = { version = "4", features = ["derive"] }
tokio = { version = "1", features = ["rt-multi-thread", "macros", "time"] }
once_cell = "1"
rayon = "1"
anyhow = "1"
tracing = "0.1"
tracing-subscriber = { version = "0.3", features = ["env-filter", "local-time"] }
tracing-appender = "0.2"
tracing-log = "0.2"
time = { version = "0.3", features = ["formatting", "macros", "local-offset"] }
