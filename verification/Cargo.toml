[package]
name = "batteryudpd"
version = "0.1.0"
edition = "2021"
publish = false

[dependencies]
chrono = "0.4"
dotenv = "0.15"
postgres = { version = "0.19", features = ["with-chrono-0_4"] }
