[package]
name = "tonel"
version = "0.1.0"
edition = "2021"
publish = false

[dependencies]
cfg-if = "=1.0.5"
clap = { version = "=4.6.7", features = ["cargo"] }
ctrlc = "=3.5.2"
daemonize = "=0.5.0"
dashmap = "=5.5.3"
env_logger = "=0.10.2"
fxhash = "=0.2.1"
kanal = "=0.1.1"
log = "=0.4.35"
once_cell = "=1.21.4"
opool = "=0.2.0"
pnet = "=0.31.0"
socket2 = { version = "=0.5.10", features = ["all"] }
tokio = { version = "=1.54.1", features = ["full"] }
tokio-util = "=0.7.20"
tun = { version = "=0.6.1", features = ["async"] }
