[package]
name = "ova_verify"
version = "0.1.0"
edition = "2021"

[dependencies]
rust-crypto = "0.2"
nom = "7"
pbr = "1"
tar = "0.4"
