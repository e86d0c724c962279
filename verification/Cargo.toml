[package]
name = "packet-browser"
version = "0.4.0"
edition = "2021"
publish = false

[dependencies]
async-stream = "0.3"
async-trait = "0.1"
axum = "0.7"
base64 = "0.22"
brotli = "7"
bytes = "1"
chrono = "0.4"
clap = { version = "4", features = ["derive"] }
configparser = "3"
dirs = "5"
fantoccini = { version = "0.21", default-features = false }
http-body-util = "0.1"
httpdate = "1"
hyper = { version = "1", features = ["client", "http1", "server"] }
hyper-util = { version = "0.1", features = ["tokio", "client-legacy", "http1"] }
lol_html = "2"
reqwest = { version = "0.12", default-features = false, features = ["blocking"] }
rusqlite = { version = "0.31", features = ["bundled"] }
serde = { version = "1", features = ["derive"] }
serde_json = "1"
sha2 = "0.10"
tempfile = "3"
thiserror = "1"
tokio = { version = "1", features = ["full"] }
tokio-stream = { version = "0.1", features = ["sync"] }
tracing = "0.1"
tracing-subscriber = { version = "0.3", features = ["env-filter"] }
url = "2"
