[package]
name = "porcelain"
version = "0.1.0"
edition = "2021"
publish = false

[dependencies]
sha2 = "*"
subtle = "*"
anyhow = "*"
axum = { version = "*", features = ["ws"] }
clap = { version = "*", features = ["derive"] }
directories = "*"
getrandom = "*"
git2 = { version = "*", default-features = false }
mime_guess = "*"
rusqlite = { version = "*", features = ["bundled"] }
serde = { version = "*", features = ["derive"] }
serde_json = "*"
thiserror = "*"
tokio = { version = "*", features = ["full"] }
tokio-util = "*"
toml = "*"
tower = "*"
tower-http = { version = "*", features = ["set-header"] }
tracing = "*"
tracing-subscriber = { version = "*", features = ["env-filter"] }
libc = "*"
