[package]
name = "iron_render_cad"
version = "0.1.0"
edition = "2021"
publish = false

[dependencies]
uncad-model = "*"
iron-diff-cad = "*"
resvg = "*"
serde = { version = "1", features = ["derive"] }
