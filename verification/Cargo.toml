[package]
name = "dx_cli"
version = "0.3.1"
edition = "2021"
publish = false

[dependencies]
bytesize = "1"
regex = "1"
chrono = "0.4"
hex = "0.4"
color-print = "0.3"
lazy_static = "1"
structopt = "0.3"
strum = "0.26"
strum_macros = "0.26"
walkdir = "2"
libc = "0.2"
itertools = "0.13"
