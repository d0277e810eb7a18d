[package]
name = "dozer_runtime"
version = "0.1.0"
edition = "2021"
publish = false

[dependencies]
prettytable-rs = "*"
prost = "*"
serde = { version = "1", features = ["derive"] }
thiserror = "*"
