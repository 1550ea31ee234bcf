[package]
name = "stip"
version = "0.1.0"
edition = "2021"
publish = false

[dependencies]
sha1_smol = "=1.0.1"
url = "=2.5.8"
urlencoding = "=2.1.3"
zip = { version = "=0.6.6", default-features = false, features = ["deflate"] }
keepass = { version = "0.7", features = ["save_kdbx4"] }
uuid = "1"
serde = { version = "=1.0.229", features = ["derive"] }
clap = { version = "=4.6.7", features = ["derive"] }
rpassword = "=7.5.4"
promptly = "=0.3.1"
rqrr = { version = "=0.11.0", default-features = false }
