[package]
name = "forumdoc"
version = "0.1.0"
edition = "2021"
publish = false

[dependencies]
anyhow = "*"
chrono = "*"
docx-rust = "*"
encoding_rs = "*"
futures = "*"
reqwest = { version = "*", default-features = false, features = ["cookies"] }
scraper = "*"
tokio = { version = "*", features = ["macros", "rt"] }
tracing = "*"
tracing-subscriber = "*"
