[package]
name = "usagi"
version = "0.1.0"
edition = "2021"
publish = false

[dependencies]
sha2 = "0.10"
clap = { version = "4", features = ["derive"] }
directories = "*"
flate2 = "1"
tar = "0.4"
zip = "*"
ureq = "3"
tempfile = "3"
time = "0.3"
serde_json = "1"
mlua = { version = "*", features = ["lua54", "vendored", "serialize"] }
