[package]
name = "rmk-palettefx"
version = "0.1.0"
edition = "2021"
publish = false

[dependencies]
rand_core = "0.10"
rand_pcg = "0.10"
heapless = "*"
embassy-sync = "*"
rmk = { version = "*", default-features = false }
