[package]
name = "zk_layers"
version = "0.1.0"
edition = "2021"
publish = false

[dependencies]
halo2_proofs = "0.2.0"
pasta_curves = "0.4"

[dev-dependencies]
rand = "0.8"
