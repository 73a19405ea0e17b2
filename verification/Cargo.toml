[package]
name = "clcache_server"
version = "0.1.0"
edition = "2021"
publish = false

[dependencies]
md5 = "*"
dashmap = "*"
single-instance = "*"
