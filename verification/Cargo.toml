[package]
name = "word_export"
version = "0.1.0"
edition = "2021"
publish = false

[dependencies]
rand = "0.8"
csv = "1"
chrono = "0.4"
serde = { version = "1", features = ["derive"] }
reqwest = { version = "0.11", default-features = false, features = ["blocking", "json", "rustls-tls"] }
printpdf = { version = "0.5", default-features = false }
winapi = { version = "0.3", features = ["winnls", "stringapiset"] }
