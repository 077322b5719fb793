[package]
name = "pipemeeter_core"
version = "0.1.0"
edition = "2021"
publish = false

[dependencies]
log = "0.4"
pipewire = { version = "0.10", features = ["v0_3_44"] }
symphonia = { version = "0.5", features = ["mp3", "aac", "isomp4", "alac", "flac", "ogg", "vorbis", "wav", "pcm"] }
