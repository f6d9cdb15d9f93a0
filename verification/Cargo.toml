[package]
name = "source_wrench"
version = "0.1.0"
edition = "2021"
publish = false

[dependencies]
bitflags = "2"
chrono = "0.4"
datamodel = "*"
glam = "*"
indexmap = "2"
kdtree = "0.7"
notify = "*"
parking_lot = "0.12"
thiserror = "*"
uuid = "1"
