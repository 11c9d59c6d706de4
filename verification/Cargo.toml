[package]
name = "dude_brawl"
version = "0.1.0"
edition = "2021"
publish = false

[dependencies]
poly2tri-rs = "*"
