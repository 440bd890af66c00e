[package]
name = "pacman_helper"
version = "0.1.0"
edition = "2021"
publish = false

[dependencies]
chrono = "0.4"
dialoguer = "0.10"
sudo = "0.6"
