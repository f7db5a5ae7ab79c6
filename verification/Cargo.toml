[package]
name = "sitemap-xml-writer"
version = "0.1.0"
edition = "2021"
publish = false

[dependencies]
chrono = { version = "0.4", default-features = false, features = ["std"] }
thiserror = "1"
time = { version = "0.3", features = ["formatting"] }
url = "2"

[dev-dependencies]
regex = "1"
