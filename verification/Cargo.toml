[package]
name = "rust_tokenizers"
version = "0.1.0"
edition = "2021"
publish = false

[dependencies]
unicode-normalization = "=0.1.25"
unicode-properties = "*"
rayon = "=1.12.0"
serde = { version = "=1.0.229", features = ["derive"] }
