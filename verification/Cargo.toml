[package]
name = "gpui"
version = "0.1.0"
edition = "2021"
publish = false

[dependencies]
accesskit = "*"
anyhow = "1"
cocoa = "*"
objc = "*"
ctor = "*"
