[package]
name = "iris"
version = "0.1.0"
edition = "2021"
publish = false

[dependencies]
clap = { version = "=4.6.7", features = ["derive"] }
egui = { version = "=0.37.0", default-features = false }
libc = "0.2"
libchdman-rs = "=0.289.3"
nokhwa = { version = "=0.10.11", default-features = false }
parking_lot = "=0.12.5"
pcap = "=2.5.0"
rfd = { version = "=0.17.2", default-features = false, features = ["xdg-portal"] }
rtrb = "=0.3.6"
serde = { version = "=1.0.229", features = ["derive"] }
toml = "=0.8.23"
