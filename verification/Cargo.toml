[package]
name = "the_bridge"
version = "0.1.0"
edition = "2021"
publish = false

[dependencies]
bincode = { version = "=2.0.0-rc.3", default-features = false, features = ["alloc"] }
embedded-io-async = "=0.6.1"
futures = "=0.3.34"
tokio-util = { version = "=0.7.20", default-features = false, features = ["codec"] }
