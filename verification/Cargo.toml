[package]
name = "datafusion_distributed"
version = "0.1.0"
edition = "2021"
publish = false

[dependencies]
async-trait = "=0.1.92"
color-eyre = { version = "0.6", default-features = false }
crossterm = { version = "0.28", default-features = false, features = ["events"] }
dashmap = "=6.2.1"
datafusion = { version = "=55.2.0", default-features = false }
datafusion-proto = { version = "=55.2.0", default-features = false }
futures = "0.3"
http = "=1.5.0"
hyper-util = { version = "0.1", features = ["tokio"] }
prost = "=0.14.4"
rand = "=0.9.5"
ratatui = { version = "0.29", default-features = false, features = ["crossterm"] }
structopt = { version = "0.3", default-features = false }
tokio = { version = "1", features = ["macros", "net", "rt-multi-thread", "sync", "time"] }
tonic = { version = "=0.14.9", features = ["tls-ring", "tls-webpki-roots"] }
tower = { version = "0.5", features = ["util"] }
url = "=2.5.8"
