[package]
name = "xai_api"
version = "0.1.0"
edition = "2021"
publish = false

[dependencies]
base64 = "*"
axum = "*"
serde = { version = "*", features = ["derive"] }
serde_json = "*"
sqlx = { version = "*", default-features = false, features = ["runtime-tokio", "postgres", "time", "macros"] }
tokio = { version = "*", features = ["rt-multi-thread", "macros", "net", "fs", "io-util"] }
time = { version = "*", features = ["serde"] }
dotenv = "*"
once_cell = "*"
tower-http = { version = "*", features = ["trace", "cors"] }
tracing = "*"
tracing-subscriber = { version = "*", features = ["env-filter", "fmt"] }
