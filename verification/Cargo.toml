[package]
name = "nu_plugin_jwalk"
version = "0.1.0"
edition = "2021"
publish = false

[dependencies]
chrono = "=0.4.45"
dua-core = "=3.0.0"
ignore = "=0.4.34"
interprocess = "~2.2"
jwalk = "=0.9.0"
nu-path = "=0.110.0"
nu-plugin = "=0.110.0"
nu-protocol = "=0.110.0"
omnipath = "=0.1.6"
walkdir = "=2.5.0"

[dev-dependencies]
tempfile = "=3.27.0"
