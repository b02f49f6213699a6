[package]
name = "exit_relay"
version = "0.1.0"
edition = "2021"
publish = false

[dependencies]
actix = "0.5"
clap = "2.33"
futures = "0.1"
serde = "1"
serde_derive = "1"
tokio = "0.1"
