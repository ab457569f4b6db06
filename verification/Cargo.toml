[package]
name = "circom_witness"
version = "0.1.0"
edition = "2021"
publish = false

[dependencies]
ark-ec = "=0.4.2"
ark-ff = "=0.4.2"
color-eyre = "=0.6.5"
num = "=0.4.3"
num-bigint = "=0.4.8"
num-traits = "=0.2.19"
thiserror = "=1.0.69"
wasm3 = "=0.3.1"

[dev-dependencies]
ark-bn254 = "=0.4.0"
fnv = "=1.0.7"
