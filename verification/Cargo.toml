[package]
name = "bitmap2ttf"
version = "0.1.0"
edition = "2021"
publish = false

[dependencies]
write-fonts = "*"
kurbo = "*"
clap = { version = "4", features = ["derive"] }
image = { version = "0.25", default-features = false, features = ["png"] }
serde = { version = "1", features = ["derive"] }
serde_json = "1"

[dev-dependencies]
ttf-parser = "*"
