[package]
name = "earpeace"
version = "0.1.0"
edition = "2021"
publish = false

[dependencies]
anyhow = "*"
base64 = "*"
clap = { version = "*", features = ["derive"] }
dotenv = "*"
ebur128 = "*"
env_logger = "*"
log = "*"
mp3lame-encoder = "*"
reqwest = { version = "*", default-features = false, features = ["json"] }
serde = { version = "*", features = ["derive"] }
serde_json = "*"
symphonia = { version = "*", features = ["mp3", "ogg", "vorbis", "wav", "pcm"] }
tempfile = "*"
tokio = { version = "*", features = ["macros", "rt-multi-thread", "fs"] }
