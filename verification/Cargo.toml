[package]
name = "filterless"
version = "0.1.0"
edition = "2021"
publish = false

[dependencies]
clap = "=4.6.7"
libc = "=0.2.190"
ncurses = "=5.101.0"
