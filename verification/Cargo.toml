[package]
name = "trash_targets"
version = "0.1.0"
edition = "2021"
publish = false

[dependencies]
crossterm = "0.25"
trash = "3"
tui = "0.19"
