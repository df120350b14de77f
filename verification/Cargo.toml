[package]
name = "minion_adaptor"
version = "0.1.0"
edition = "2021"
publish = false

[dependencies]
regex = "*"
uniplate = "*"
ustr = "*"
