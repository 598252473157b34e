[package]
name = "tape_machine"
version = "0.1.0"
edition = "2021"
publish = false

[dependencies]
quicli = "=0.3.1"
structopt = "=0.2.18"
