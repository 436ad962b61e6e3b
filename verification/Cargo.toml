[package]
name = "rsp"
version = "0.1.0"
edition = "2021"

[dependencies]
clap = "4"
serde_yaml = "0.9"
thiserror = "1"
