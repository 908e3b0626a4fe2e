[package]
name = "command_dispatch"
version = "0.1.0"
edition = "2021"
publish = false

[dependencies]
serenity = "0.8"
