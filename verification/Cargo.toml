[package]
name = "rwebserve"
version = "0.1.0"
edition = "2021"
publish = false

[dependencies]
mustache = "0.9"
time = "0.1"
getopts = "0.2"
either = "1"
libc = "0.2"
