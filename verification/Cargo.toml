[package]
name = "fault_injection_prevention"
version = "0.1.0"
edition = "2021"
publish = false

[dependencies]
rand_core = "0.6"
cortex-m = "0.7"
const-random = "0.1"
