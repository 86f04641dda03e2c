[package]
name = "localmesh"
version = "0.1.0"
edition = "2021"
publish = false

[dependencies]
uuid = { version = "*", features = ["v4"] }
deku = "*"
log = "*"
env_logger = "*"
actix-web = { version = "*", default-features = false }
reqwest = { version = "*", default-features = false }
rlua = "*"
