[package]
name = "editor_builtins"
version = "0.1.0"
edition = "2021"
publish = false

[dependencies]
regex = "1"
flate2 = "1"
grep-regex = "0.1"
grep-searcher = "0.1"
ignore = "0.4"
