[package]
name = "rkyv_js_codegen"
version = "0.1.0"
edition = "2021"
publish = false

[dependencies]
syn = { version = "2", features = ["full"] }
walkdir = "2"
