[package]
name = "serial_monitor"
version = "1.2.6"
edition = "2021"
publish = false

[dependencies]
encoding_rs = "=0.8.44"
serde = { version = "1", features = ["derive"] }
serde_json = "1"
chrono = "0.4"
directories = "5"
lazy_static = "1.4"
serialport = { version = "4", default-features = false }
reqwest = { version = "0.11", default-features = false, features = ["blocking", "json", "rustls-tls"] }
image = { version = "0.24", default-features = false, features = ["png"] }
