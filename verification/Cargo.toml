[package]
name = "chess_ttm"
version = "0.1.0"
edition = "2021"
publish = false

[dependencies]
clap = { version = "=4.6.7", features = ["derive"] }
nalgebra = "=0.35.0"
pgn-reader = "=0.28.0"
plotters = "=0.3.7"
