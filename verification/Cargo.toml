[package]
name = "shipyard_relations"
version = "0.1.0"
edition = "2021"
publish = false

[dependencies]
indexmap = "2"
petgraph = "0.6"
shipyard = "0.7"
