[package]
name = "kartoteka"
version = "0.7.0"
edition = "2021"
publish = false

[dependencies]
reqwest = { version = "0.12", default-features = false, features = ["blocking", "json", "rustls-tls"] }
serde = { version = "1", features = ["derive"] }
serde_json = "1"
thiserror = "2"
walkdir = "2"
async-channel = "2"
glib = "*"
gtk4 = "*"
libadwaita = "*"
