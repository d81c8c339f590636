[package]
name = "point_extractor"
version = "0.1.0"
edition = "2021"
publish = false

[dependencies]
graph_match = "*"
