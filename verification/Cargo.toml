[package]
name = "pdf_reader_core"
version = "0.1.0"
edition = "2021"
publish = false

[dependencies]
chrono = "0.4"
serde = { version = "1", features = ["derive"] }
sha2 = "0.10"
rusqlite = { version = "*", features = ["bundled"] }
