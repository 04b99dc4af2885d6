[package]
name = "dice_bot"
version = "0.1.0"
edition = "2021"
publish = false

[dependencies]
rand = "=0.8.8"
rlisp = "=0.2.0"
chrono = "=0.4.45"
rusqlite = { version = "=0.29.0", features = ["bundled"] }
serenity = "=0.8.9"
lalrpop-util = "0.19"
