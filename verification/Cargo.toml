[package]
name = "ase_shell"
version = "0.1.0"
edition = "2021"
publish = false

[dependencies]
shlex = "1"
glob = "0.3"
pathsearch = "*"
anyhow = "1"
libc = "0.2"
rustyline = "*"
