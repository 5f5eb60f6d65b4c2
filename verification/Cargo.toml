[package]
name = "wearte_derive"
version = "0.1.0"
edition = "2021"
publish = false

[dependencies]
mime_guess = "=1.8.8"
syn = { version = "=0.15.44", features = ["full", "visit", "extra-traits"] }
quote = "=0.6.13"
