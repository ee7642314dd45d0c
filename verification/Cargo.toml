[package]
name = "knapsack"
version = "0.1.0"
edition = "2021"
publish = false

[dependencies]
once_cell = "=1.21.4"
rand = "=0.9.5"
tokio = { version = "=1.54.1", features = ["rt-multi-thread"] }
