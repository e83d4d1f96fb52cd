[package]
name = "vad_pipeline"
version = "0.1.0"
edition = "2021"
publish = false

[dependencies]
chrono = "0.4"
hound = "3"
cpal = "0.15"
voice_activity_detector = "*"
