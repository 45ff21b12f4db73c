[package]
name = "pdf_talk"
version = "0.1.0"
edition = "2021"
publish = false

[dependencies]
lopdf = { version = "=0.45.0", features = ["embed_image"] }
owned_ttf_parser = "=0.25.1"
clap = { version = "=4.6.7", features = ["derive"] }
