[package]
name = "npendulum"
version = "0.1.0"
edition = "2021"
publish = false

[dependencies]
actix-web = "4"
serde = { version = "1", features = ["derive"] }
base64 = "0.22"
image = { version = "0.25", default-features = false, features = ["png"] }
plotters = "0.3"
