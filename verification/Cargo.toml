[package]
name = "tag_model"
version = "0.1.0"
edition = "2021"
publish = false

[dependencies]
uuid = { version = "=1.29.0", features = ["v4"] }
blake3 = { version = "=1.8.7", default-features = false, features = ["std", "pure"] }
dashmap = "=5.5.3"
snafu = "=0.7.5"
async-trait = "=0.1.92"
clap = { version = "=4.6.7", default-features = false, features = ["derive", "std", "help", "usage", "error-context"] }
csv = "=1.4.0"
serde = { version = "=1.0.229", features = ["derive"] }
serde_json = "=1.0.154"
tokio = { version = "=1.54.1", features = ["rt-multi-thread", "macros", "time"] }
tracing = "=0.1.44"
num_cpus = "=1.17.0"
surrealdb = { version = "1", default-features = false, features = ["protocol-ws"] }
