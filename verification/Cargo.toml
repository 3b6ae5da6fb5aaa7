[package]
name = "scope"
version = "0.1.0"
edition = "2021"
publish = false

[dependencies]
regex = "=1.13.1"
distance = "=0.4.0"
crossbeam-channel = "=0.5.17"
clap = { version = "=2.34.0", features = ["yaml"] }
glium = "=0.26.0"
glium_text_rusttype = "=0.3.3"
