[package]
name = "tiny-infer"
version = "0.1.0"
edition = "2021"
publish = false

[dependencies]
humansize = "=2.1.3"
libm = "=0.2.16"
microfft = { version = "=0.6.0", default-features = false, features = ["size-512"] }
rand = "=0.10.3"
thousands = "=0.2.0"
wide = "=1.7.1"
