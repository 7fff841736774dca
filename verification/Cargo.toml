[package]
name = "pgstate"
version = "0.1.0"
edition = "2021"
publish = false

[dependencies]
env_logger = "*"
iron = "*"
iron-cors = "*"
log = "*"
mount = "*"
postgres = "*"
serde = "*"
serde_derive = "*"
serde_json = "*"
serde_yaml = "*"
staticfile = "*"
structopt = "*"
