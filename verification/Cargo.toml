[package]
name = "nom_span"
version = "0.1.0"
edition = "2021"
publish = false

[dependencies]
bytecount = "0.6"
memchr = "2"
nom = "7"
