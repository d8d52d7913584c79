[package]
name = "http_benchmarks"
version = "0.1.0"
edition = "2021"
publish = false

[dependencies]
hdrhistogram = "*"
chrono = "*"
clap = "*"
dirs = "*"
slog = "*"
slog-async = "*"
slog-term = "*"
openssl = "*"
http = "*"

[dev-dependencies]
atoi = "*"
itoa = "*"
jetscii = "*"
