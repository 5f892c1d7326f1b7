[package]
name = "pg_search"
version = "0.1.0"
edition = "2021"
publish = false

[dependencies]
rand = "=0.9.5"
once_cell = "=1.21.4"
env_logger = "=0.11.11"
pgrx = { version = "=0.16.1", features = ["pg17"] }
