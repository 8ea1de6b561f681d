[package]
name = "akashic_record"
version = "0.1.0"
edition = "2021"
publish = false

[dependencies]
sexpr_ir = "=0.5.0"
