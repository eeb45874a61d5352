[package]
name = "nanovna_saver"
version = "0.1.0"
edition = "2021"
publish = false

[dependencies]
tokio-serial = { version = "5.4", default-features = false }
uuid = { version = "1", features = ["v4"] }
clap = { version = "4", features = ["derive"] }
polars = { version = "0.42", default-features = false, features = ["csv", "fmt"] }
