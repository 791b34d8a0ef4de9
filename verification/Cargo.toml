[package]
name = "godot_wasm_bindgen"
version = "0.1.0"
edition = "2021"
publish = false

[dependencies]
anyhow = "=1.0.104"
clap = { version = "=4.6.7", features = ["derive"] }
id-arena = "=2.3.0"
leb128 = "=0.2.7"
walrus = "=0.20.3"
