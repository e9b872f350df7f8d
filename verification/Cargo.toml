[package]
name = "yomichan_audio_server"
version = "0.1.0"
edition = "2021"
publish = false

[dependencies]
rayon = "*"
actix-web = { version = "*", default-features = false, features = ["macros"] }
actix-files = "*"
clap = { version = "*", features = ["derive"] }
color-eyre = "*"
color-print = "*"
serde = { version = "*", features = ["derive"] }
serde_json = "*"
sqlx = { version = "*", features = ["sqlite", "runtime-tokio"] }
strum = { version = "*", features = ["derive"] }
sysinfo = "*"
thiserror = "*"
tokio = { version = "*", features = ["macros", "rt-multi-thread", "sync", "time"] }
tracing = "*"
tracing-subscriber = { version = "*", features = ["env-filter"] }
