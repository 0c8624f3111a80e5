[package]
name = "instant_xml"
version = "0.1.0"
edition = "2021"
publish = false

[dependencies]
xmlparser = "0.13"
thiserror = "1"
chrono = { version = "0.4", default-features = false, features = ["alloc"] }
