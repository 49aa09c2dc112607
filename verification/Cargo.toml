[package]
name = "voidgrid"
version = "0.1.0"
edition = "2021"
publish = false

[dependencies]
slotmap = "1"
serde = { version = "1", features = ["derive"] }
serde_json = "1"
anyhow = "1"
zip = "*"
raylib = "*"
rhai = "1"
chrono = "0.4"
puffin = "*"
puffin_http = "*"
rand = "0.9"
