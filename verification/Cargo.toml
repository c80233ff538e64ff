[package]
name = "email_client"
version = "0.1.0"
edition = "2021"
publish = false

[dependencies]
lettre = { version = "*", default-features = false, features = ["builder", "smtp-transport", "native-tls"] }
imap = "*"
native-tls = "*"

[dev-dependencies]
serde_json = "*"
