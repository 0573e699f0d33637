[package]
name = "trading_data"
version = "0.1.0"
edition = "2021"
publish = false

[dependencies]
derive_more = { version = "=2.1.1", features = ["full"] }
derive-new = "=0.7.0"
eyre = "=0.6.14"
flate2 = "=1.1.10"
jiff = "=0.2.39"
libm = "=0.2.16"
serde = { version = "=1.0.229", features = ["derive"] }
strum = { version = "=0.27.2", features = ["derive"] }
ureq = "=3.5.1"
