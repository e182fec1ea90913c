[package]
name = "cmux"
version = "0.1.0"
edition = "2021"
publish = false

[dependencies]
ropey = { version = "=1.6.1", default-features = false }
arboard = { version = "=3.6.1", default-features = false }
crossterm = "=0.28.1"
tokio = { version = "=1.53.2", features = ["rt-multi-thread", "macros", "sync", "time"] }
clap = { version = "=4.6.7", features = ["derive"] }
