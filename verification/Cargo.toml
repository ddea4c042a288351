[package]
name = "image_links"
version = "0.1.0"
edition = "2021"
publish = false

[dependencies]
reqwest = { version = "*", default-features = false }
structopt = "*"
tokio = { version = "*", features = ["macros", "rt-multi-thread"] }
