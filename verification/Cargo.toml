[package]
name = "neothesia"
version = "0.1.0"
edition = "2021"
publish = false

[dependencies]
log = "=0.4.35"
midly = "=0.5.3"
winit = "=0.30.13"
