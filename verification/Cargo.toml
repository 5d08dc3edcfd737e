[package]
name = "typed_concourse"
version = "0.1.0"
edition = "2021"
publish = false

[dependencies]
git-url-parse = "=0.4.6"
names = "=0.14.0"
