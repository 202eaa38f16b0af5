[package]
name = "hprof_sqlite"
version = "0.1.0"
edition = "2021"
publish = false

[dependencies]
anyhow = "1"
jvm-hprof = "*"
memmap = "0.7"
rusqlite = "*"
time = { version = "0.3", features = ["formatting"] }
