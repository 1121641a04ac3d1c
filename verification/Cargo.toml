[package]
name = "rustyray"
version = "0.1.0"
edition = "2021"
publish = false

[dependencies]
serde = { version = "=1.0.229", features = ["derive"] }
serde_json = "=1.0.154"
ndarray = { version = "=0.17.2", features = ["serde"] }
rayon = "=1.12.0"
sdl2 = { version = "=0.38.0", features = ["ttf"] }
stl_io = "=0.11.0"
image = { version = "=0.25.10", default-features = false, features = ["png"] }
itertools-num = "=0.1.3"
