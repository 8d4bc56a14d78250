[package]
name = "parsezilla"
version = "0.1.0"
edition = "2021"
publish = false

[dependencies]
actix-web = "4"
clap = "4"
colored = "*"
futures-util = "0.3"
postal = "*"
serde = { version = "1", features = ["derive"] }
