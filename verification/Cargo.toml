[package]
name = "minisql"
version = "0.1.0"
edition = "2021"
publish = false

[dependencies]
csv = "*"
rustyline = "*"
tabled = "*"
