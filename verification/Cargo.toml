[package]
name = "kademlia_node"
version = "0.1.0"
edition = "2021"
publish = false

[dependencies]
bencode = "*"
rand = "0.8"
