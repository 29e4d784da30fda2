[package]
name = "trackmaker_rs"
version = "0.1.0"
edition = "2021"
publish = false

[dependencies]
reed-solomon = "=0.2.1"
jack = "=0.13.5"
pcap = "=2.5.0"
clap = { version = "=4.6.7", features = ["derive"] }
crossbeam-channel = "=0.5.17"
ctrlc = "=3.5.2"
dialoguer = "=0.12.0"
etherparse = "=0.21.0"
rand = "=0.10.3"
rubato = "=5.0.1"
tracing = "=0.1.44"
tracing-subscriber = "=0.3.23"
byteorder = "=1.5.0"
tun = "=0.8.14"
