[package]
name = "cyclang"
version = "0.1.0"
edition = "2021"
publish = false

[dependencies]
anyhow = "1"
clap = { version = "4", features = ["derive"] }
dyn-clone = "1"
libc = "0.2"
llvm-sys = "191"
rustyline = "14"
tempfile = "3"
text-colorizer = "1"
