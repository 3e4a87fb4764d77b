[package]
name = "flick"
version = "0.1.0"
edition = "2021"
publish = false

[dependencies]
anyhow = "1"
clap = { version = "4", features = ["derive"] }
llvm-sys = { version = "140", features = ["force-dynamic"] }
