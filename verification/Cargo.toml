[package]
name = "deepseek_cli"
version = "0.1.0"
edition = "2021"
publish = false

[dependencies]
chrono = "0.4"
regex = "1"
rqrr = "*"
image = { version = "0.25", default-features = false, features = ["png", "jpeg"] }
serde = { version = "1", features = ["derive"] }
serde_json = "1"
ureq = { version = "3", features = ["json"] }
clap = { version = "4", features = ["derive"] }
clap_complete = "4"
confy = "*"
inquire = { version = "*", features = ["date"] }
qrcode = "*"
tabled = "*"
thiserror = "2"
