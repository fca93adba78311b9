[package]
name = "bootc_verified"
version = "0.1.0"
edition = "2021"
publish = false

[dependencies]
anyhow = "=1.0.104"
camino = "=1.2.6"
cap-std-ext = "=5.1.2"
clap = { version = "=4.6.7", features = ["derive", "env"] }
composefs = "=0.9.4"
linux-kernel-cmdline = "=0.1.1"
ostree = "=0.20.5"
rand = "=0.10.3"
rustix = { version = "=1.1.6", features = ["fs", "mm", "mount", "process"] }
serde = { version = "=1.0.229", features = ["derive"] }
serde_json = "=1.0.154"
serde_yaml = "=0.9.34"
shlex = "=1.3.0"
tempfile = "=3.27.0"
tracing = "=0.1.44"
xshell = "=0.2.7"
