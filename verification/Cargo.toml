[package]
name = "prompt_relay"
version = "0.1.0"
edition = "2021"
publish = false

[dependencies]
actix-web = "4"
actix-cors = "0.7"
dotenv = "0.15"
reqwest = { version = "0.12", default-features = false, features = ["json"] }
serde = { version = "1", features = ["derive"] }
serde_json = "1"
