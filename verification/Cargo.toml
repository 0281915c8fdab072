[package]
name = "tao_analysis"
version = "0.1.0"
edition = "2021"
publish = false

[dependencies]
ariadne = "=0.1.5"
hashbrown = "=0.14.5"
allocator-api2 = "=0.2.21"
ahash = { version = "=0.8.12", default-features = false }
