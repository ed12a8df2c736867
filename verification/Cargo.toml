[package]
name = "metricscat"
version = "0.1.0"
edition = "2021"
publish = false

[dependencies]
regex = "1"
chrono = { version = "0.4", default-features = false, features = ["std", "now"] }
serde = { version = "1", features = ["derive"] }
serde_json = "1"
tokio = { version = "1", features = ["rt-multi-thread", "macros", "time", "sync"] }
async-std = "1"
reqwest = { version = "0.11", default-features = false }
rocket = { version = "0.5", default-features = false, features = ["json"] }
rocket_cors = { version = "0.6", default-features = false }
sqlx = { version = "0.7", default-features = false, features = ["runtime-tokio", "postgres", "chrono"] }
gethostname = "0.4"
