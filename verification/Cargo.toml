[package]
name = "job_engine"
version = "0.1.0"
edition = "2021"
publish = false

[dependencies]
tokio = { version = "1", features = ["signal", "rt", "time", "sync", "macros"] }
actix-web = { version = "4", default-features = false, features = ["macros"] }
diesel = { version = "2", default-features = false, features = ["postgres", "r2d2"] }
serde = { version = "1", features = ["derive"] }
serde_json = "1"
log = "0.4"
