[package]
name = "event_queues"
version = "0.1.0"
edition = "2021"
publish = false

[dependencies]
nix = "0.14"
wayland-commons = "0.21"
