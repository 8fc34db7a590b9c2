[package]
name = "mdbook-grammar"
version = "0.1.0"
edition = "2021"
publish = false

[dependencies]
unscanny = "0.1"
html-escape = "0.2"
serde_json = "1"
mdbook = { version = "0.4", default-features = false }
