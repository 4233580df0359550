[package]
name = "pk2"
version = "0.1.0"
edition = "2021"

[dependencies]
blowfish = "0.9"
