[package]
name = "skillset"
version = "0.1.0"
edition = "2021"
publish = false

[dependencies]
line-col = "*"
lalrpop-util = "*"
log = "*"
