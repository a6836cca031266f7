[package]
name = "disklist"
version = "0.1.0"
edition = "2021"
publish = false

[dependencies]
bytesize = "=1.3.3"
console = "=0.16.6"
clap = { version = "=4.6.7", features = ["derive"] }
