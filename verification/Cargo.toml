[package]
name = "croissant"
version = "0.1.0"
edition = "2021"
publish = false

[dependencies]
splr = { version = "=0.17.2", features = ["incremental_solver"] }
cadical = "=0.1.16"
logicng = "=0.1.0-alpha.3"
clap = { version = "=4.6.7", features = ["derive"] }
