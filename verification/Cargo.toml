[package]
name = "p2p_conn"
version = "0.1.0"
edition = "2021"
publish = false

[dependencies]
rand_chacha = "0.3"
no-std-net = "0.6"
rand = "0.8"
