[package]
name = "s3_fuse"
version = "0.1.0"
edition = "2021"
publish = false

[dependencies]
time = "0.3"
libc = "0.2"
log = "0.4"
env_logger = "0.10"
anyhow = "1"
futures = "0.3"
async-recursion = "1"
clap = { version = "3", features = ["cargo"] }
fuser = { version = "0.14", default-features = false }
tokio = { version = "1", features = ["full"] }
opendal = "0.30"

[dev-dependencies]
bincode = "1"
