[package]
name = "cecile_vm"
version = "0.1.0"
edition = "2021"
publish = false

[dependencies]
arrayvec = "0.7"
hashbrown = "0.13"
rand = "0.8"
rustc-hash = "1.1"
termcolor = "1.1"
