[package]
name = "annex_archiver"
version = "0.1.0"
edition = "2021"
publish = false

[dependencies]
async-cron-scheduler = "2.0.1"
chrono = "0.4"
clap = { version = "4", features = ["derive"] }
cron = "*"
filetime = "0.2"
glob = "0.3"
home = "0.5"
plist = "1"
rand = "0.8"
regex = "1"
rev_buf_reader = "*"
serde = { version = "1", features = ["derive"] }
serde_json = "1"
tokio = { version = "1", features = ["full"] }
toml = "*"
walkdir = "2"
xattr = "1"
