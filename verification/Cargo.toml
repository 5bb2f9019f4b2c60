[package]
name = "bls12381-fr"
version = "0.1.0"
edition = "2021"
publish = false

[dependencies]
ff = "=0.13.1"
halo2curves = { version = "=0.10.0", features = ["std"] }
num-bigint = "=0.4.8"
rand = "=0.8.8"
serde = "=1.0.229"
rayon = "=1.12.0"
p3-field = "=0.8.0"
p3-matrix = "=0.8.0"

[dev-dependencies]
serde_json = "=1.0.154"
num-traits = "=0.2.19"
zkhash = "=0.2.0"
