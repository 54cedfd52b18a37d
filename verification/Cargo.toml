[package]
name = "bhairav_synth"
version = "0.1.0"
edition = "2021"
publish = false

[dependencies]
cpal = "=0.15.3"
crossbeam-channel = "=0.5.17"
crossterm = "=0.27.0"
hound = "=3.5.1"
midir = "0.7"
ratatui = "=0.26.3"
rustfft = "=6.4.1"
