[package]
name = "fetchchromium"
version = "0.1.0"
edition = "2021"
publish = false

[dependencies]
anyhow = "1"
bytes = "1"
clap = { version = "4", features = ["derive"] }
compress-tools = "*"
reqwest = { version = "0.11", features = ["blocking"] }
select = "0.6"
serde = { version = "1", features = ["derive"] }
serde_json = "1"
zip = "0.6"
