[package]
name = "pdfrip_engine"
version = "0.1.0"
edition = "2021"
publish = false

[dependencies]
md5 = "=0.7.0"
lopdf = { version = "=0.45.0", default-features = false }
log = "=0.4.34"
pretty_env_logger = "=0.5.0"
anyhow = "=1.0.104"
