[package]
name = "trustchain"
version = "0.1.0"
edition = "2021"
publish = false

[dependencies]
ring = "=0.17.14"
sodiumoxide = "=0.2.5"
