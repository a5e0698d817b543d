[package]
name = "anti_collision"
version = "0.1.0"
edition = "2021"
publish = false

[dependencies]
chrono = "0.4"
dioxus = { version = "0.6", default-features = false, features = ["macro", "html", "signals", "hooks", "launch"] }
futures-util = "0.3"
reqwest = { version = "0.12", default-features = false, features = ["stream", "rustls-tls"] }
tokio = { version = "1", features = ["macros", "rt-multi-thread", "sync", "time"] }
