[package]
name = "langjam_gamejam_lang"
version = "0.1.0"
edition = "2021"
publish = false

[dependencies]
rand = "0.9"
rustc_apfloat = "*"
