[package]
name = "btclient"
version = "0.1.0"
edition = "2021"
publish = false

[dependencies]
bip_bencode = "=0.1.3"
bip_metainfo = "=0.5.0"
bip_utracker = "=0.3.2"
bit-vec = "=0.4.4"
byteorder = "=0.5.3"
chrono = "=0.2.25"
clap = "=2.34.0"
hyper = { version = "=0.9.18", default-features = false }
log = "=0.3.9"
mio = "=0.6.23"
pretty_env_logger = "=0.1.1"
rustyline = "=1.0.0"
slab = "=0.3.0"
url = "=2.5.8"
