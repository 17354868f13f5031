[package]
name = "port_sniffer"
version = "0.1.0"
edition = "2021"
publish = false

[dependencies]
bpaf = { version = "0.9", features = ["derive"] }
tokio = { version = "1", features = ["rt-multi-thread", "macros", "net"] }
