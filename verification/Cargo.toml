[package]
name = "hybrid_nars"
version = "0.1.0"
edition = "2021"
publish = false

[dependencies]
anyhow = "=1.0.104"
nom = "=8.0.0"
rand = "=0.9.5"
