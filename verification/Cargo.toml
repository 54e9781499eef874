[package]
name = "halo2_kzg_srs"
version = "0.1.0"
edition = "2021"
publish = false

[dependencies]
byteorder = "=1.5.0"
halo2curves = { version = "=0.10.0", features = ["std"] }
num-bigint = "=0.4.8"
rand_core = { version = "=0.6.4", features = ["getrandom"] }
