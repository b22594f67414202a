[package]
name = "pdf_to_md"
version = "0.1.0"
edition = "2021"
publish = false

[dependencies]
anyhow = "1"
clap = { version = "4", features = ["derive"] }
pdfium-render = "*"
rayon = "1"
serde = { version = "1", features = ["derive"] }
walkdir = "2"
