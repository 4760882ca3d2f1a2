[package]
name = "rs_type"
version = "0.1.0"
edition = "2021"
publish = false

[dependencies]
rand = "*"
roxmltree = "*"
structopt = "*"
whoami = "*"
