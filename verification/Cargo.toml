[package]
name = "glyphvec"
version = "0.1.0"
edition = "2021"
publish = false

[dependencies]
fontdue = "*"
lyon_tessellation = "*"
