[package]
name = "woodpecker"
version = "0.1.0"
edition = "2021"

[dependencies]
bitvec = "1"
rand = "0.8"
sha2 = { version = "0.10", features = ["compress"] }
parse_int = "*"
clap = { version = "4", features = ["derive"] }
rustyline = "*"
