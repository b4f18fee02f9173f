[package]
name = "smas"
version = "0.1.0"
edition = "2021"

[dependencies]
nalgebra = "0.33"
clap = "3.2"
wasm-bindgen = "0.2"
console_error_panic_hook = "0.1"
