[package]
name = "aipr"
version = "0.1.0"
edition = "2021"
publish = false

[dependencies]
handlebars = "=6.4.4"
mdbook-preprocessor = "=0.5.4"
words-count = "=0.1.7"
anyhow = "=1.0.104"
