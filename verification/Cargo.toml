[package]
name = "antsdr_decoder"
version = "0.1.0"
edition = "2021"
publish = false

[dependencies]
anyhow = "*"
async-channel = "*"
async-trait = "*"
clap = { version = "*", features = ["derive"] }
flexi_logger = "*"
ieee80211 = "*"
pcap = "*"
radiotap = "*"
tokio = { version = "*", features = ["macros", "rt-multi-thread", "net", "process"] }
