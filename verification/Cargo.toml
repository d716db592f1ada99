[package]
name = "thanks"
version = "0.1.0"
edition = "2021"
publish = false

[dependencies]
caseless = "=0.2.2"
semver = "=1.0.28"
unicode-normalization = "=0.1.26"
regex = "=1.13.1"
clap = "4"
diesel = { version = "2", default-features = false, features = ["postgres"] }
dotenv = "0.15"
futures = "0.3"
git2 = { version = "*", default-features = false }
handlebars = "5"
hyper = { version = "0.14", features = ["server", "http1", "tcp"] }
reqwest = { version = "0.11", default-features = false, features = ["blocking", "json", "rustls-tls"] }
serde = { version = "1", features = ["derive"] }
serde_json = "1"
slog = "2"
slog-async = "2"
slog-term = "2"
tokio = { version = "1", features = ["rt-multi-thread"] }
