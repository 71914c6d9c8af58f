[package]
name = "remote_patches"
version = "0.1.0"
edition = "2021"
publish = false

[dependencies]
camino = "*"
json = "*"
log = "*"
tempfile = "*"
toml_edit = "*"
