[package]
name = "ros2_bridge"
version = "0.1.0"
edition = "2021"
publish = false

[dependencies]
regex = "1"
zenoh-keyexpr = "*"
serde = { version = "1", features = ["derive"] }
serde_json = "1"
