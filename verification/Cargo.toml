[package]
name = "websockets"
version = "0.1.0"
edition = "2021"
publish = false

[dependencies]
base64 = "0.13"
flume = "0.11"
futures = "0.3"
http-body-util = "0.1"
hyper = { version = "1", features = ["client", "http1"] }
hyper-util = { version = "0.1", features = ["tokio"] }
native-tls = "0.2"
rand = "0.8"
rand_chacha = "0.3"
sha1 = "0.10"
thiserror = "1"
tokio = { version = "1", features = ["io-util", "macros", "net", "rt", "sync", "time"] }
tokio-native-tls = "0.3"
tokio-util = { version = "0.7", features = ["codec"] }
url = "2"
