[package]
name = "game_of_life"
version = "0.1.0"
edition = "2021"
publish = false

[dependencies]
getrandom = "0.2"
itertools = "0.10"
wasm-bindgen = "0.2"
