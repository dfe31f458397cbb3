[package]
name = "tenshi-no-hana"
version = "0.1.0"
edition = "2021"
publish = false

[dependencies]
embassy-net = { version = "*", features = ["tcp", "dhcpv4", "medium-ethernet", "proto-ipv4"] }
