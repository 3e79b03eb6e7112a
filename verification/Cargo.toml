[package]
name = "service_bootstrap"
version = "0.1.0"
edition = "2021"
publish = false

[dependencies]
async-graphql = "*"
async-graphql-poem = "*"
config = { version = "*", default-features = false, features = ["yaml"] }
poem = "*"
tokio = { version = "*", features = ["macros", "rt-multi-thread"] }
tracing = "*"
tracing-subscriber = "*"
