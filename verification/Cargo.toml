[package]
name = "mine"
version = "0.1.0"
edition = "2021"
publish = false

[dependencies]
rand = "0.8"
console = "0.15"
structopt = "0.3"
pixels = "0.9"
winit = "0.26"
