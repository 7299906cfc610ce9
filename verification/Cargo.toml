[package]
name = "compyrs"
version = "0.1.0"
edition = "2021"
publish = false

[dependencies]
glob = "*"
clap = "*"
hostfile = "*"
is_executable = "*"
pgs-files = "*"
servicefile = "*"
users = "*"
