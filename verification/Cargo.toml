[package]
name = "msm_circuit"
version = "0.1.0"
edition = "2021"
publish = false

[dependencies]
ff = "0.13"
group = "0.13"
pasta_curves = "0.5"
halo2_proofs = "0.3"

[dev-dependencies]
num-bigint = "0.4"
num-traits = "0.2"
rand_core = { version = "0.6", features = ["getrandom"] }
rand_xorshift = "0.3"
