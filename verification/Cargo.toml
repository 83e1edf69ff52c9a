[package]
name = "zion"
version = "0.1.0"
edition = "2021"
publish = false

[dependencies]
arc-swap = "1"
aws-lc-rs = "=1.19.0"
bytes = "=1.12.1"
core_affinity = "0.8"
dashmap = "=6.2.1"
fnv = "=1.0.7"
h3 = "0.0.8"
h3-quinn = "0.0.10"
http-body-util = "=0.1.5"
hyper = { version = "=1.12.0", features = ["client", "server", "http1", "http2"] }
hyper-rustls = { version = "0.27", default-features = false, features = ["http1", "http2", "webpki-roots", "aws-lc-rs"] }
hyper-util = { version = "=0.1.21", features = ["tokio", "client", "client-legacy", "server", "server-auto", "service", "http1", "http2"] }
itoa = "=1.0.18"
libc = "=0.2.191"
mimalloc = { version = "0.1", default-features = false }
quinn = { version = "0.11", default-features = false, features = ["runtime-tokio", "rustls-aws-lc-rs"] }
rcgen = "=0.14.10"
rustls = { version = "0.23", default-features = false, features = ["aws_lc_rs", "std", "tls12"] }
rustls-pemfile = "2"
ryu = "=1.0.23"
serde_json = "=1.0.154"
socket2 = { version = "=0.5.10", features = ["all"] }
tokio = { version = "=1.54.1", features = ["full"] }
tokio-rustls = { version = "0.26", default-features = false, features = ["aws_lc_rs", "tls12"] }
tokio-stream = "0.1"
tracing = "0.1"
tracing-subscriber = { version = "0.3", features = ["env-filter", "json"] }
webpki-roots = "1"
