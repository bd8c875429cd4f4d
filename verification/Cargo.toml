[package]
name = "canopy"
version = "0.1.0"
edition = "2021"
publish = false

[dependencies]
convert_case = "=0.12.0"
ruau = "*"
unicode-segmentation = "=1.13.3"
unicode-width = "=0.2.3"
