[package]
name = "ray_tracer"
version = "0.1.0"
edition = "2021"
publish = false

[dependencies]
bincode = "1"
png = "0.17"
rayon = "1"
serde = { version = "1", features = ["derive"] }
serde_json = "1"
text_io = "0.1"
