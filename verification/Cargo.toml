[package]
name = "mmtk"
version = "0.32.0"
edition = "2021"
publish = false

[dependencies]
atomic = "0.6"
atomic_refcell = "0.1"
crossbeam = "0.8"
enum-map = "2"
lazy_static = "1"
