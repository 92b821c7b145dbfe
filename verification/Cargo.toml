[package]
name = "rhymuweb-server"
version = "1.0.0"
edition = "2021"
publish = false

[dependencies]
anyhow = "1"
async-ctrlc = "1.2"
async-std = "=1.13.2"
async-tls = "0.11"
futures = "=0.3.34"
rhymessage = "=1.3.1"
rhymuweb = "=1.2.1"
rustls = "0.19"
structopt = "0.3"
thiserror = "=1.0.69"
