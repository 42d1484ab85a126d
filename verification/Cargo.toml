[package]
name = "sw_projective"
version = "0.1.0"
edition = "2021"
publish = false
