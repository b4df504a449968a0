[package]
name = "omegasort"
version = "0.1.0"
edition = "2021"
publish = false

[dependencies]
anyhow = "1"
chrono = "=0.4.45"
clap = { version = "4", features = ["derive", "wrap_help"] }
dateparser = "=0.2.1"
fern = { version = "0.6", features = ["colored"] }
icu = { version = "=1.5.0", features = ["sync"] }
ipnet = "=2.12.2"
log = "0.4"
rayon = "=1.12.0"
tempfile = "3"
termimad = "*"
thiserror = "1"
typed-path = "=0.13.0"
