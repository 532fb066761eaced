[package]
name = "dropsync"
version = "0.1.0"
edition = "2021"
publish = false

[dependencies]
dirs = "*"
docopt = "*"
gethostname = "*"
glob = "*"
rprompt = "*"
serde = { version = "*", features = ["derive"] }
sysinfo = "*"
toml = "*"
