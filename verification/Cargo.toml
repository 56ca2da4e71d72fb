[package]
name = "rico"
version = "0.1.0"
edition = "2021"
publish = false

[dependencies]
image = "0.24"
clap = "4"
rayon = "1"
walkdir = "2"
