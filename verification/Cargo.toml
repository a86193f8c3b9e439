[package]
name = "vscode_search_provider"
version = "0.1.0"
edition = "2021"
publish = false

[dependencies]
anyhow = "*"
clap = "*"
dirs = "*"
env_logger = "*"
gio = "*"
glib = "*"
libc = "*"
log = "*"
serde_json = "*"
zbus = "*"
