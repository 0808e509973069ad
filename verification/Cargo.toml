[package]
name = "icebox"
version = "0.1.0"
edition = "2021"
publish = false

[dependencies]
rand = "*"
nix = { version = "*", features = ["fs", "hostname", "mount", "process", "sched", "signal", "socket", "user"] }
tempdir = "*"
serde = "*"
serde_derive = "*"
serde_yaml = "*"
shlex = "*"
zip = "*"
