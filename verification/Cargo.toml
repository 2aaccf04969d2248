[package]
name = "mod_theory"
version = "0.1.0"
edition = "2021"
publish = false

[dependencies]
shared_vector = "=0.5.0"
