[package]
name = "bindgen_helpers"
version = "0.1.0"
edition = "2021"
publish = false

[dependencies]
bindgen = { version = "*", features = ["__cli"] }
convert_case = "*"
regex = "*"
serde = { version = "*", features = ["derive"] }
thiserror = "*"
toml = "*"
