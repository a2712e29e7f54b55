[package]
name = "photofinish"
version = "0.1.0"
edition = "2021"
publish = false

[dependencies]
toml = "0.8"
clap = "4"
exitcode = "1"
tokio = { version = "1", features = ["macros", "rt-multi-thread", "time"] }
reqwest = { version = "0.12", default-features = false, features = ["rustls-tls"] }
