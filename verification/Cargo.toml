[package]
name = "touchosc_client"
version = "0.1.0"
edition = "2021"
publish = false

[dependencies]
nannou_osc = "*"
