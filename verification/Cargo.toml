[package]
name = "ident_mash"
version = "0.1.0"
edition = "2021"
publish = false

[dependencies]
convert_case = "=0.6.0"
proc-macro2 = "=1.0.107"
quote = "=1.0.47"
syn = "=3.0.9"
unicode-ident = "=1.0.27"
