[package]
name = "orm_core"
version = "0.1.0"
edition = "2021"
publish = false

[dependencies]
sqlx = { version = "*", default-features = false, features = ["postgres", "mysql", "runtime-tokio"] }
tokio = { version = "*", features = ["rt-multi-thread", "macros"] }
thiserror = "*"
async-trait = "*"
