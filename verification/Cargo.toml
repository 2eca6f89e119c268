[package]
name = "dictcc"
version = "0.1.0"
edition = "2021"
publish = false

[dependencies]
regex = "=1.13.1"
htmlescape = "=0.3.1"
prettytable-rs = { version = "=0.10.0", default-features = false }
colored = "=3.1.1"
structopt = "=0.3.26"
log = "=0.4.34"
simplelog = "=0.12.2"
pager = "=0.16.1"
dunce = "=1.0.5"
app_dirs = "=1.2.1"
toml = "=0.9.8"
serde = { version = "=1.0.229", features = ["derive"] }
