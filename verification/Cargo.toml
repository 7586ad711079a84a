[package]
name = "vddns"
version = "0.1.0"
edition = "2021"
publish = false

[dependencies]
eyre = "0.6"
futures = "0.3"
log = "0.4"
public-ip = "0.1"
structopt = "0.3"
