[package]
name = "tracker_socket_core"
version = "0.1.0"
edition = "2021"
publish = false

[dependencies]
itoa = "1"
anyhow = "1"
crossbeam-channel = "0.5"
hashbrown = "0.15"
log = "0.4"
mio = { version = "1", features = ["os-poll", "net"] }
rustls = "0.21"
slab = "0.4"
tungstenite = "0.24"
rand_distr = "0.4"
