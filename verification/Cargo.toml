[package]
name = "device_scanner"
version = "0.1.0"
edition = "2021"
publish = false

[dependencies]
im = "15"
daggy = "0.8"
libzfs-types = "*"
libzfs = "*"
serde = { version = "1", features = ["derive"] }
serde_json = "1"
tokio = { version = "1", features = ["full"] }
futures = "0.3"
bytes = "1"
warp = "0.3"
hyper = { version = "0.14", features = ["client", "http1", "tcp"] }
native-tls = "0.2"
tokio-native-tls = "0.3"
diesel = { version = "1.4", features = ["postgres"] }
structopt = "0.3"
libsystemd = "*"
tracing = "0.1"
tracing-subscriber = { version = "0.3", features = ["env-filter"] }
lazy_static = "1"
