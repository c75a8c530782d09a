[package]
name = "avro_to_json"
version = "0.1.0"
edition = "2021"
publish = false

[dependencies]
colored = "*"
apache-avro = "*"
anyhow = "*"
clap = "*"
serde_json = "*"
