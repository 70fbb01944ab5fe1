[package]
name = "mips_assembler"
version = "0.1.0"
edition = "2021"

[dependencies]
bimap = "0.6"
clap = { version = "4", features = ["derive"] }
