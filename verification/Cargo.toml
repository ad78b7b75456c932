[package]
name = "graphdb"
version = "0.1.0"
edition = "2021"
publish = false

[dependencies]
futures = "0.1"
graphql-parser = "0.2"
hyper = "0.12"
serde = "1"
serde_derive = "1"
serde_json = "1"
toml = "0.5"
url = "2"
