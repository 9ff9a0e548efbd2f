[package]
name = "mini_piano"
version = "0.1.0"
edition = "2021"
publish = false

[dependencies]
clap = { version = "*", features = ["derive"] }
fxhash = "*"
libremarkable = "*"
midi = "*"
portmidi = "*"
