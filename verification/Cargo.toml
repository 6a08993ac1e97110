[package]
name = "pointing_simulator"
version = "0.1.0"
edition = "2021"
publish = false

[dependencies]
cgmath = "=0.18.0"
crossbeam = "=0.8.5"
log = "=0.4.34"
uom = "=0.36.0"
