[package]
name = "lane_linalg"
version = "0.1.0"
edition = "2021"
publish = false

[dependencies]
futures = "0.3"
gcd = "2.3"
num = "0.4"
opencl3 = "0.9"
rayon = "1"
thiserror = "1"

[dev-dependencies]
rand = "0.8"
