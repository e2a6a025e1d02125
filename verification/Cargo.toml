[package]
name = "zitadel-actions-manager"
version = "0.1.0"
edition = "2021"
publish = false

[dependencies]
serde = { version = "=1.0.229", features = ["derive"] }
serde_yaml = "=0.9.34"
serde_json = "=1.0.154"
url = { version = "=2.5.8", features = ["serde"] }
snafu = "=0.8.9"
tracing = "=0.1.44"
tracing-error = "=0.2.1"
tracing-subscriber = { version = "=0.3.23", features = ["env-filter"] }
tokio = { version = "=1.54.1", features = ["macros", "rt-multi-thread"] }
clap = { version = "=4.6.7", features = ["derive", "env"] }
reqwest = { version = "=0.13.5", default-features = false, features = ["json", "form", "query"] }
jsonwebtoken = "=9.3.1"
time = "=0.3.55"
futures = "=0.3.34"
anyhow = "=1.0.104"
trait-variant = "=0.1.3"
famedly_rust_utils = { version = "=1.1.2", features = ["base_url", "level_filter", "reqwest"] }
famedly-zitadel-rust-client = "=0.14.0"
