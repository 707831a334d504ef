[package]
name = "tastlib"
version = "0.1.0"
edition = "2021"
publish = false

[dependencies]
heapless = "=0.8.0"
usbd-human-interface-device = "=0.6.1"
k_board = { version = "=1.3.1", features = ["standar", "lower_letter", "upper_letter"] }
