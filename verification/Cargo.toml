[package]
name = "mixxxkit"
version = "0.1.0"
edition = "2021"
publish = false

[dependencies]
chrono = "*"
clap = { version = "*", features = ["derive"] }
flexi_logger = "*"
futures = "*"
inquire = "*"
log = "*"
sea-orm = { version = "0.12", default-features = false, features = ["sqlx-sqlite", "runtime-tokio-rustls", "macros"] }
strum = { version = "*", features = ["derive"] }
thiserror = "*"
tokio = { version = "*", features = ["macros", "rt", "rt-multi-thread", "fs", "io-util"] }
tokio-stream = { version = "*", features = ["fs", "io-util"] }
