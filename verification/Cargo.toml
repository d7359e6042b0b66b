[package]
name = "eventsource"
version = "0.5.0"
edition = "2021"
publish = false

[dependencies]
mime = "0.3"
reqwest = { version = "0.11", default-features = false, features = ["blocking"] }
thiserror = "1"
