[package]
name = "scavenger"
version = "0.1.0"
edition = "2021"
publish = false

[dependencies]
chan = "0.1"
core_affinity = "0.5"
filetime = "0.2"
futures = "0.1"
page_size = "0.4"
rand = "0.5"
rayon = "1"
stopwatch = "0.0.7"
tokio = "0.1"
tokio-core = "0.1"
