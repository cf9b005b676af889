[package]
name = "ioc"
version = "0.1.0"
edition = "2021"
publish = false

[dependencies]
anyhow = "=1.0.104"
cfg-rs = "=1.0.6"
thiserror = "=2.0.21"
