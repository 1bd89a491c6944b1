[package]
name = "iced_accessibility"
version = "0.1.0"
edition = "2021"
publish = false

[dependencies]
accesskit = "*"
unicode-segmentation = "1"
