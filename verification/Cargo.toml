[package]
name = "caption_server"
version = "0.1.0"
edition = "2021"
publish = false

[dependencies]
instant-clip-tokenizer = "*"
actix-web = "*"
actix-files = "*"
actix-cors = "*"
