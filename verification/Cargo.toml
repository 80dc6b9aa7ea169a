[package]
name = "just_template"
version = "0.2.0"
edition = "2021"
publish = false

[dependencies]
just_fmt = "*"
proc-macro2 = "1"
quote = "1"
syn = { version = "2", features = ["full", "parsing"] }
