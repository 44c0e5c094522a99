[package]
name = "discovery"
version = "0.1.0"
edition = "2021"
publish = false

[dependencies]
futures = "=0.1.31"
http = "=0.1.21"
log = "=0.4.35"
tower = "=0.1.1"
tower-discover = "=0.1.0"
tower-grpc = "=0.1.1"
