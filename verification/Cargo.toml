[package]
name = "hierarchy_children"
version = "0.1.0"
edition = "2021"
publish = false

[dependencies]
smallvec = "*"
