[package]
name = "geogroup"
version = "0.1.0"
edition = "2021"
publish = false

[dependencies]
itertools = "*"
take_mut = "*"
sanitise-file-name = "*"
unwrap-infallible = "*"
either = "*"
chrono = "*"
geo = "*"
walkdir = "*"
log = "*"
env_logger = "*"
thiserror = "*"
anyhow = "*"
