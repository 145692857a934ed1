[package]
name = "pakken"
version = "0.1.0"
edition = "2021"
publish = false

[dependencies]
clap = "2"
colored = "1"
displaydoc = "0.1"
once_cell = "1"
ron = "0.6"
serde = { version = "1", features = ["derive"] }
thiserror = "1"
