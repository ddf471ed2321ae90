[package]
name = "wireguard_gui"
version = "0.1.0"
edition = "2021"
publish = false

[dependencies]
ipnetwork = "*"
clap = { version = "*", features = ["derive"] }
nix = { version = "*", features = ["user", "fs"] }
getifaddrs = "*"
pnet_datalink = "*"
wait-timeout = "*"
