[package]
name = "xous_prefs"
version = "0.1.0"
edition = "2021"
publish = false

[dependencies]
regex = "1"
serde_json = "1"
proc-macro2 = "1"
glob = "0.3"
