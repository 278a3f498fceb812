[package]
name = "studymood"
version = "0.1.0"
edition = "2021"
publish = false

[dependencies]
actix-cors = "=0.7.2"
actix-web = { version = "=4.18.1", default-features = false, features = ["macros"] }
bcrypt = "=0.19.3"
chrono = "=0.4.45"
dotenvy = "=0.15.7"
getrandom = "=0.2.17"
jsonwebtoken = "=9.3.1"
mime_guess = "=2.0.5"
reqwest = { version = "=0.12.28", default-features = false, features = ["json"] }
sea-orm = { version = "=1.1.20", default-features = false, features = ["macros", "with-chrono", "with-json"] }
serde = { version = "=1.0.229", features = ["derive"] }
serde_json = "=1.0.154"
tokio = { version = "=1.54.1", features = ["fs", "io-util", "macros", "rt-multi-thread"] }
tokio-util = { version = "=0.7.20", features = ["io"] }
walkdir = "=2.5.0"
