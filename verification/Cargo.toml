[package]
name = "room_hub"
version = "0.1.0"
edition = "2021"
publish = false

[dependencies]
tokio = { version = "1", features = ["sync", "macros", "rt", "rt-multi-thread", "time"] }
actix-web = "4"
actix-ws = "0.3"
actix-cors = "0.7"
async-trait = "0.1"
bson = "1"
dotenv = "0.15"
env_logger = "0.11"
futures = "0.3"
futures-util = "0.3"
log = "0.4"
mime = "0.3"
mongodb = "1"
serde = { version = "1", features = ["derive"] }
serde_json = "1"
thiserror = "1"
validator = { version = "0.16", features = ["derive"] }
wither = "0.9"
