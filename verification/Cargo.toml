[package]
name = "combinators"
version = "0.1.0"
edition = "2021"
publish = false

[dependencies]
hashbrown = "0.15"
unicode-ident = "1"
unicode-segmentation = "1"
