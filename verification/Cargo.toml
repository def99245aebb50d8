[package]
name = "zr"
version = "0.1.0"
edition = "2021"
publish = false

[dependencies]
url = "2"
git2 = "*"
git2_credentials = "*"
directories = "*"
clap = "2"
