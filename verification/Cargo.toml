[package]
name = "sudoku_solver"
version = "0.1.0"
edition = "2021"
publish = false

[dependencies]
bit-set = "0.5"
wasm-bindgen = "0.2"
