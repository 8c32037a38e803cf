[package]
name = "entity_loader"
version = "0.1.0"
edition = "2021"
publish = false

[dependencies]
heck = "*"
proc-macro2 = "*"
quote = "*"
syn = "*"
