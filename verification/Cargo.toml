[package]
name = "border_crossings"
version = "0.1.0"
edition = "2021"
publish = false

[dependencies]
chrono = "0.4"
clap = { version = "4", features = ["derive"] }
country-boundaries = "*"
rust_iso3166 = "*"
serde = { version = "1", features = ["derive"] }
serde_json = "1"
zip = "*"
