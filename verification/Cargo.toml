[package]
name = "falcon_key_file"
version = "0.1.0"
edition = "2021"
publish = false

[dependencies]
levenshtein = "1.0"
log = "0.4"
