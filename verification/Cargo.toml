[package]
name = "timed_tasks"
version = "0.1.0"
edition = "2021"
publish = false

[dependencies]
chrono = "*"
clap = { version = "*", features = ["cargo"] }
colored = "*"
directories = "*"
dotenv = "*"
