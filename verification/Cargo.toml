[package]
name = "everygarf"
version = "0.1.0"
edition = "2021"
publish = false

[dependencies]
bytes = "1"
chrono = "0.4"
clap = { version = "4", features = ["derive"] }
dirs-next = "2"
futures = "0.3"
image = "*"
notify-rust = "4"
reqwest = { version = "*", default-features = false }
tokio = { version = "1", features = ["macros", "rt-multi-thread"] }
