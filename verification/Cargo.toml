[package]
name = "calendarbot"
version = "0.1.0"
edition = "2021"
publish = false

[dependencies]
anyhow = "*"
chrono = "*"
chrono-tz = "*"
diesel = "*"
diesel-async = { version = "*", features = ["postgres", "deadpool"] }
dotenvy = "*"
env_logger = "*"
google-calendar3 = { version = "*", features = ["yup-oauth2-service-account"] }
log = "*"
poise = "*"
tokio = { version = "*", features = ["macros", "rt-multi-thread", "sync", "time"] }
workdays = "*"
