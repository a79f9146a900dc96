[package]
name = "recipe_printer"
version = "0.1.0"
edition = "2021"
publish = false

[dependencies]
unidecode = "*"
clap = { version = "*", features = ["derive"] }
escpos = "*"
indicatif = "*"
reqwest = { version = "*", default-features = false, features = ["blocking"] }
serde = { version = "*", features = ["derive"] }
serde_json = "*"
