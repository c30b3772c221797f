[package]
name = "qobuz"
version = "0.1.0"
edition = "2021"
publish = false

[dependencies]
anyhow = "=1.0.104"
chrono = "=0.4.45"
clap = { version = "=4.6.7", features = ["derive"] }
indicatif = "=0.18.6"
reqwest = { version = "=0.13.5", default-features = false, features = ["json", "cookies", "query", "form"] }
rusqlite = { version = "=0.40.2", features = ["bundled", "array"] }
serde = { version = "=1.0.229", features = ["derive"] }
serde_json = "=1.0.151"
tokio = { version = "=1.53.2", features = ["macros", "rt-multi-thread"] }
tracing = "=0.1.44"
tracing-bunyan-formatter = "=0.3.10"
tracing-log = "=0.1.4"
tracing-subscriber = { version = "=0.3.23", features = ["env-filter"] }
