[package]
name = "mix_checkin"
version = "0.1.0"
edition = "2021"
publish = false

[dependencies]
tl = "*"
uuid = { version = "*", features = ["v4"] }
reqwest = { version = "*", default-features = false, features = ["cookies", "form"] }
tokio = { version = "*", features = ["macros", "rt-multi-thread"] }
serde_json = "*"
