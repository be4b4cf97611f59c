[package]
name = "department"
version = "0.2.0"
edition = "2021"

[dependencies]
spin = "0.9"
