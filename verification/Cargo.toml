[package]
name = "findr"
version = "0.1.0"
edition = "2021"
publish = false

[dependencies]
clap = "2.34"
regex = "1"
walkdir = "2"
