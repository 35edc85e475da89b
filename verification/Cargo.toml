[package]
name = "protoduck"
version = "0.1.0"
edition = "2021"
publish = false

[dependencies]
base64 = "*"
duckdb = { version = "*", features = ["vscalar", "vscalar-arrow", "loadable-extension"] }
once_cell = "*"
parking_lot = "*"
prost = "*"
prost-reflect = "*"
prost-types = "*"
protox = "*"
serde_json = "*"
