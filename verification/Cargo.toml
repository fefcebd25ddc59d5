[package]
name = "radia"
version = "0.1.0"
edition = "2021"
publish = false

[dependencies]
glam = "=0.34.2"
rayon = "=1.12.0"
serde = { version = "=1.0.229", features = ["derive"] }
serde_json = "=1.0.154"
serde-saphyr = { version = "=2.0.0", features = ["garde"] }
garde = { version = "=0.23.0", features = ["derive"] }
thiserror = "=2.0.21"
miette = "=7.6.0"
clap = { version = "=4.6.7", features = ["derive", "env"] }
tracing = "=0.1.44"
tracing-subscriber = { version = "=0.3.23", features = ["env-filter"] }
nom = "=8.0.0"
wasm-bindgen = "=0.2.130"
serde-wasm-bindgen = "=0.6.5"
