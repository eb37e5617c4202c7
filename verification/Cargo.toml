[package]
name = "pvm"
version = "2.1.4"
edition = "2021"
publish = false

[dependencies]
clap = { version = "4", features = ["derive"] }
reqwest = { version = "0.12", default-features = false, features = ["blocking", "rustls-tls"] }
rusqlite = { version = "*", features = ["bundled"] }
scraper = "*"
serde_json = "*"
winreg = "*"
zip = { version = "*", default-features = false, features = ["deflate"] }
