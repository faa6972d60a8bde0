[package]
name = "oxidamp"
version = "0.1.0"
edition = "2021"
publish = false

[dependencies]
egui = "0.21"
egui-miniquad = "0.14"
itertools = "0.10"
jack = "0.11"
miniquad = "0.3"
