[package]
name = "fuse_planner"
version = "0.1.0"
edition = "2021"
publish = false

[dependencies]
async-trait = "0.1"
futures = "0.3"
parking_lot = "0.12"
serde = "1"
serde_json = "1"
