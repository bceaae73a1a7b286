[package]
name = "clinical_trial_data"
version = "0.1.0"
edition = "2021"
publish = false

[dependencies]
csv = "=1.4.0"

[dev-dependencies]
num-bigint = "=0.4.8"
