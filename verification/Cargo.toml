[package]
name = "heatmap"
version = "0.1.0"
edition = "2021"
publish = false

[dependencies]
quick-xml = "*"
chrono = "*"
image = "*"
structopt = "*"

[dependencies.reqwest]
version = "*"
default-features = false
features = ["blocking"]

[dev-dependencies]
