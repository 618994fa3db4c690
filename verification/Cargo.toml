[package]
name = "skim"
version = "0.1.0"
edition = "2021"
publish = false

[dependencies]
memchr = "=2.8.3"
regex = "=1.13.1"
frizbee = "=0.13.0"
ratatui = "=0.29.0"
crossterm = "=0.28.1"
ansi-to-tui = "=7.0.0"
