[package]
name = "bunpu"
version = "0.1.0"
edition = "2021"
publish = false

[dependencies]
rustc_apfloat = "*"
libm = "*"
bytemuck = "*"
rand = "0.8"
wasm-bindgen = "0.2"
js-sys = "*"
console_error_panic_hook = "*"
