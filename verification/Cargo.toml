[package]
name = "nom_parse_trait"
version = "0.1.0"
edition = "2021"
publish = false

[dependencies]
nom = "8"
