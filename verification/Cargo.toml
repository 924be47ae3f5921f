[package]
name = "work-queue"
version = "0.1.0"
edition = "2021"
publish = false

[dependencies]
concurrent-queue = "1.2"
