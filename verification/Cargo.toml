[package]
name = "asciimath_text_renderer"
version = "0.1.0"
edition = "2021"
publish = false

[dependencies]
unicode-segmentation = "*"
asciimath-parser = "*"
phf = { version = "*", features = ["macros"] }
