[package]
name = "elm-strip-comments"
version = "0.1.0"
edition = "2021"

[dependencies]
glob = "=0.3.4"
pico-args = "=0.3.4"
