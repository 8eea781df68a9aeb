[package]
name = "workshop"
version = "0.1.0"
edition = "2021"
publish = false

[dependencies]
actix-files = "0.6"
actix-multipart = "0.6"
actix-utils = "3"
actix-web = { version = "4", default-features = false, features = ["macros"] }
chrono = { version = "0.4", default-features = false, features = ["std"] }
data-encoding = "2"
fancy-regex = "*"
image = { version = "0.24", default-features = false, features = ["png"] }
reqwest = { version = "0.12", default-features = false, features = ["json", "rustls-tls"] }
serde = { version = "1", features = ["derive"] }
serde_json = "1"
shuttle-actix-web = "*"
shuttle-runtime = { version = "*", default-features = false }
shuttle-shared-db = { version = "*", features = ["postgres", "sqlx"] }
sqlx = { version = "0.8", default-features = false, features = ["postgres", "runtime-tokio"] }
ulid = { version = "1", default-features = false, features = ["std"] }
uuid = { version = "1", features = ["serde"] }
