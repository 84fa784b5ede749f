[package]
name = "sentence_segmenter"
version = "0.1.0"
edition = "2021"
publish = false

[dependencies]
dotenv = "0.15"
mongodb = "2"
tokio = { version = "1", features = ["macros", "rt-multi-thread"] }
