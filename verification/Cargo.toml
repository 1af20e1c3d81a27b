[package]
name = "gears_lang"
version = "0.1.0"
edition = "2021"
publish = false

[dependencies]
lalrpop-util = "0.16"
