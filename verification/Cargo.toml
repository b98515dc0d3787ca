[package]
name = "game_lang"
version = "0.1.0"
edition = "2021"
publish = false

[dependencies]
ahash = "0.8"
ariadne = "0.4"
clap = { version = "4", features = ["derive"] }
ecow = "0.2"
env_logger = "0.11"
log = "0.4"
owo-colors = "4"
rustyline = "14"
slotmap = "1"
