[package]
name = "info"
version = "0.1.0"
edition = "2021"
publish = false

[dependencies]
bytesize = "=2.7.0"
colored = "=3.1.1"
ratatui = "=0.30.2"
sysinfo = "0.38"
unicode-width = "=0.2.3"
walkdir = "=2.5.0"
