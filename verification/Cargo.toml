[package]
name = "cliprint"
version = "0.1.0"
edition = "2021"
publish = false

[dependencies]
strfmt = "*"
nu-ansi-term = "*"
users = "*"
zbus = "*"
smithay-client-toolkit = "*"
