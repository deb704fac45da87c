[package]
name = "simple_smtp"
version = "0.1.0"
edition = "2021"
publish = false

[dependencies]
base64 = "0.22"
chrono = { version = "0.4", default-features = false, features = ["std", "now"] }
embassy-net = { version = "*", features = ["tcp", "proto-ipv4", "medium-ip"] }
lettre = { version = "0.11", default-features = false, features = ["builder"] }
rustls = { version = "0.23", default-features = false, features = ["ring", "std"] }
tokio = { version = "1", features = ["io-util", "net", "rt"] }
tokio-rustls = { version = "0.26", default-features = false, features = ["ring"] }
webpki-roots = "0.26"
