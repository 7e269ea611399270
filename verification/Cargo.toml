[package]
name = "zj-prompt-jumper"
version = "0.1.0"
edition = "2021"
publish = false

[dependencies]
zellij-tile = "*"
