[package]
name = "thu_learn_cli"
version = "0.1.0"
edition = "2021"
publish = false

[dependencies]
anyhow = "=1.0.104"
chrono = "=0.4.45"
clap = { version = "=4.6.7", features = ["derive"] }
cookie_store = "=0.22.1"
directories = "=6.0.0"
futures = "=0.3.34"
owo-colors = { version = "=4.4.0", features = ["supports-colors"] }
reqwest = { version = "=0.13.5", default-features = false, features = ["rustls", "multipart", "cookies", "query"] }
reqwest_cookie_store = "=0.10.0"
serde = { version = "=1.0.229", features = ["derive"] }
serde_json = "=1.0.154"
thirtyfour = "=0.38.1"
tokio = { version = "=1.54.1", features = ["full"] }
unicode-width = "=0.2.3"
url = "=2.5.8"
