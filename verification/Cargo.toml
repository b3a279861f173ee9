[package]
name = "solana_network_listener"
version = "0.1.0"
edition = "2021"
publish = false

[dependencies]
bs58 = "*"
clap = "*"
env_logger = "*"
log = "*"
pcap = "*"
