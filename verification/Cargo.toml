[package]
name = "ssg"
version = "0.1.0"
edition = "2021"
publish = false

[dependencies]
pulldown-cmark = "=0.8.0"
syntect = "=4.6.0"
regex = "1"
home = "=0.5.12"
toml = "=1.1.7"
serde = "=1.0.229"
serde_derive = "=1.0.229"
time = "=0.3.55"
