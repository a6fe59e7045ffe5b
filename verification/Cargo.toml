[package]
name = "reqaz"
version = "0.1.0"
edition = "2021"
publish = false

[dependencies]
kuchikiki = "0.8"
html5ever = "0.26"
lightningcss = { version = "1.0.0-alpha.50", default-features = false }
rsass = "0.28"
html-escape = "0.2"
http = "1"
ureq = { version = "2", default-features = false }
hyper = { version = "1", features = ["http1", "server"] }
hyper-util = { version = "0.1", features = ["tokio"] }
http-body-util = "0.1"
tokio = { version = "1", features = ["rt-multi-thread", "macros", "net", "fs"] }
clap = { version = "4", features = ["derive"] }
serde = { version = "1", features = ["derive"] }
serde_json = "1"
eyre = "0.6"
color-eyre = "0.6"
