[package]
name = "mainstage_core"
version = "0.1.0"
edition = "2021"
publish = false

[dependencies]
pest = "2"
clap = "4"
console = "0.15"
env_logger = "0.11"
log = "0.4"
indicatif = "0.17"
