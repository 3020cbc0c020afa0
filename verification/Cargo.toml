[package]
name = "mdpage"
version = "0.1.0"
edition = "2021"
publish = false

[dependencies]
comrak = "=0.44.0"
serde = { version = "*", features = ["derive"] }
serde_json = "*"
toml = "*"
structopt = "*"
handlebars = "*"
voca_rs = "*"
