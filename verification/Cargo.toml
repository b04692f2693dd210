[package]
name = "dns_packet"
version = "0.1.0"
edition = "2021"
publish = false

[dependencies]
color-eyre = "0.5"
pretty-hex = "0.2"
structopt = "0.3"
thiserror = "1.0"
