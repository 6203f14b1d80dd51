[package]
name = "techdocs"
version = "0.1.0"
edition = "2021"
publish = false

[dependencies]
uuid = { version = "*", features = ["v4"] }
chrono = "*"
serde = { version = "*", features = ["derive"] }
serde_json = "*"
thiserror = "*"
log = "*"
env_logger = "*"
dotenvy = "*"
async-trait = "*"
actix-web = { version = "*", default-features = false, features = ["macros"] }
actix-cors = "*"
sea-orm = { version = "*", default-features = false, features = ["sqlx-postgres", "runtime-tokio-rustls", "macros", "with-chrono", "with-json", "with-uuid"] }
sea-orm-migration = { version = "*", default-features = false, features = ["sqlx-postgres", "runtime-tokio-rustls"] }
