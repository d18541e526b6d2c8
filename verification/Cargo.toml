[package]
name = "discotech"
version = "0.1.0"
edition = "2021"
publish = false

[dependencies]
discotech_zookeeper = "*"
log = "*"
