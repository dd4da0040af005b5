[package]
name = "unp_sockets"
version = "0.1.0"
edition = "2021"
publish = false

[dependencies]
libc = "0.2"
chrono = "0.4"
nix = "0.23"
docopt = "1"
serde = { version = "1", features = ["derive"] }
