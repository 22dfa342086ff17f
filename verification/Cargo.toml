[package]
name = "gailibrary"
version = "0.1.0"
edition = "2021"
publish = false

[dependencies]
itertools = "0.7"
rand = "0.4"
cgmath = "0.16"
float-cmp = "0.4"
time = "0.1"
derive_more = "0.13"
flexi_logger = "0.10"
log = "0.4"
ggez = "0.5"
