[package]
name = "t_rs"
version = "0.1.0"
edition = "2021"
publish = false

[dependencies]
clap = { version = "*", features = ["derive", "env"] }
color-eyre = "*"
fs_extra = "*"
home = "*"
symlink = "*"
tempdir = "*"
