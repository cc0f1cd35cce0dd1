[package]
name = "escape_parser"
version = "0.1.0"
edition = "2021"
publish = false

[dependencies]
hex = "=0.4.3"
log = "=0.4.35"
regex = "=1.13.1"
vtparse = "=0.6.2"
