[package]
name = "mv_extract"
version = "0.1.0"
edition = "2021"
publish = false

[dependencies]
ffmpeg-sys-next = { version = "7", default-features = false, features = ["avcodec", "avformat"] }
