[package]
name = "backstage_app_lib"
version = "0.1.0"
edition = "2021"
publish = false

[dependencies]
sha2 = "0.10"
serde = { version = "1", features = ["derive"] }
serde_json = "1"
cap-std = "3"
directories = "5"
parking_lot = "0.12"
chrono = "0.4"
thiserror = "2"
