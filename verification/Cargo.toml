[package]
name = "gguf_tokenizer"
version = "0.1.0"
edition = "2021"
publish = false

[dependencies]
anyhow = "1"
fancy-regex = "*"
memmap2 = "*"
serde = "1"
serde_json = "1"
