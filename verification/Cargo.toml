[package]
name = "zipcore"
version = "0.1.0"
edition = "2021"
publish = false

[dependencies]
crc32fast = "*"
chrono = "*"
async-compression = { version = "*", default-features = false, features = ["deflate", "futures-io"] }
futures = "*"
flate2 = "*"
tokio = { version = "*", default-features = false, features = ["fs", "io-util"] }
