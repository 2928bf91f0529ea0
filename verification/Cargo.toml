[package]
name = "oms"
version = "0.1.0"
edition = "2021"
publish = false

[dependencies]
actix-web = "*"
chrono = { version = "*", features = ["serde"] }
once_cell = "*"
rand = "*"
rust_decimal = "*"
serde = { version = "*", features = ["derive"] }
