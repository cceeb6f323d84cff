[package]
name = "epicsitegen"
version = "0.1.0"
edition = "2021"
publish = false

[dependencies]
yaml-rust2 = "=0.13.0"
pathdiff = "=0.2.3"
hashlink = "=0.12.2"
