[package]
name = "editor"
version = "0.1.0"
edition = "2021"

[dependencies]
tui = "0.19"
crossterm = "0.25"
color-eyre = "0.6"
