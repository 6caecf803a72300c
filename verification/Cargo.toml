[package]
name = "fete"
version = "0.1.0"
edition = "2021"
publish = false

[dependencies]
rand = "0.9"
serial2 = "0.2"
ab_glyph = "0.2"
png = "0.17"
