[package]
name = "dirload"
version = "0.1.4"
edition = "2021"
publish = false

[dependencies]
path-clean = "*"
rand = "*"
time = { version = "*", features = ["formatting"] }
walkdir = "*"
libc = "*"
getopts = "*"
dirs = "*"
log = "*"
simplelog = "*"
