[package]
name = "dness"
version = "0.1.0"
edition = "2021"
publish = false

[dependencies]
serde_json = "=1.0.151"
serde = { version = "=1.0.229", features = ["derive"] }
reqwest = { version = "=0.13.5", default-features = false, features = ["json", "query", "form"] }
tokio = { version = "=1.53.2", features = ["macros", "rt-multi-thread"] }
toml = "=1.1.7"
handlebars = "=6.4.4"
clap = { version = "=4.6.7", features = ["derive"] }
env_logger = "=0.11.11"
log = "=0.4.34"
futures = "=0.3.34"
hickory-resolver = "=0.26.3"
