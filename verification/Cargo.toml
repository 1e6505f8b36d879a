[package]
name = "sculpt"
version = "0.1.0"
edition = "2021"
publish = false

[dependencies]
ariadne = "0.3"
clap = { version = "4", features = ["derive"] }
inkwell = { version = "0.2", features = ["llvm15-0"] }
lalrpop-util = { version = "0.20", features = ["lexer"] }
