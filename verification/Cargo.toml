[package]
name = "calendar_mirror"
version = "0.1.0"
edition = "2021"
publish = false

[dependencies]
anyhow = "1"
chrono = "0.4"
chrono-tz = "0.10"
google-calendar3 = "6"
minicaldav = "*"
rand = "0.8"
tokio = { version = "1", features = ["macros", "rt-multi-thread", "time"] }
ureq = "2"
