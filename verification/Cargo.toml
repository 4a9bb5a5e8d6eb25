[package]
name = "dsp"
version = "0.1.0"
edition = "2021"
publish = false

[dependencies]
cpal = "0.13"
hound = "3"
num = "0.4"
rustfft = "6"
serde = { version = "1", features = ["derive"] }
serde_json = "1"
