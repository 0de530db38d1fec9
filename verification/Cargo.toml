[package]
name = "midi_melody_gui"
version = "0.1.0"
edition = "2021"
publish = false

[dependencies]
crossbeam-queue = "*"
crossbeam-utils = "*"
midir = "*"
midi-msg = "*"
anyhow = "*"
