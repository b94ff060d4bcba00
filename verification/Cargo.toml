[package]
name = "aviutl2_track"
version = "0.1.0"
edition = "2021"
publish = false

[dependencies]
aviutl2 = "*"
bitflags = "2"
thiserror = "2"
