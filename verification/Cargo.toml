[package]
name = "netsim_embed"
version = "0.1.0"
edition = "2021"
publish = false

[dependencies]
libpacket = "*"
rand = "0.8"
futures = "0.3"
async-io = "1"
async-process = "1"
async-global-executor = "2"
async-std = "1"
libc = "0.2"
ioctl-sys = "*"
log = "0.4"
anyhow = "1"
async-trait = "0.1"
structopt = "0.3"
env_logger = "0.10"
thiserror = "1"
ipc-channel = "*"
libtest-mimic = "*"
serde = { version = "1", features = ["derive"] }
