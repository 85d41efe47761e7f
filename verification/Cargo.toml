[package]
name = "panic_list"
version = "0.1.0"
edition = "2021"
publish = false

[dependencies]
rustc-demangle = "*"
bpaf = { version = "*", features = ["derive"] }
