[package]
name = "f1gp"
version = "0.1.0"
edition = "2021"
publish = false

[dependencies]
chrono = "*"
scraper = "*"
ureq = "*"
