[package]
name = "keylayout"
version = "0.1.0"
edition = "2021"
publish = false

[dependencies]
anyhow = "1"
array_map = "*"
bincode = "1"
colored = "*"
derive_more = { version = "*", features = ["add", "add_assign", "sum"] }
glam = "*"
macro_rules_attribute = "*"
notify-rust = "4"
num_enum = "*"
rand = "0.9"
rustc-hash = "2"
serde = { version = "1", features = ["derive"] }
serde_json = "1"
walkdir = "2"
