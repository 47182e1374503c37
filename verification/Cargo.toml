[package]
name = "pdf_search"
version = "0.1.0"
edition = "2021"
publish = false

[dependencies]
anyhow = "1"
lopdf = "*"
rayon = "1"
regex = "1"
reqwest = { version = "*", default-features = false, features = ["blocking"] }
rusqlite = { version = "*", features = ["bundled"] }
serde = { version = "1", features = ["derive"] }
walkdir = "2"
