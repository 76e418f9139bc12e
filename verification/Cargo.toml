[package]
name = "bevy_console"
version = "0.1.0"
edition = "2021"
publish = false

[dependencies]
bevy = { version = "=0.16.1", default-features = false, features = ["bevy_log"] }
bevy_egui = { version = "=0.34.1", default-features = false }
clap = { version = "=4.6.7", default-features = false, features = ["std", "help", "usage", "error-context"] }
shlex = "=1.3.0"
trie-rs = "=0.1.1"
