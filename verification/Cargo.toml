[package]
name = "atk68"
version = "0.1.0"
edition = "2021"
publish = false

[dependencies]
anyhow = "=1.0.104"
clap = { version = "=4.6.7", features = ["derive"] }
hidapi = { version = "=2.6.7", default-features = false, features = ["linux-native-basic-udev"] }
libc = "=0.2.191"
