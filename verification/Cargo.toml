[package]
name = "autolux"
version = "0.1.0"
edition = "2021"
publish = false

[dependencies]
dbus = "*"
signal-hook = "*"
anyhow = "*"
