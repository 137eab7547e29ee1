[package]
name = "partydeck"
version = "0.1.0"
edition = "2021"
publish = false

[dependencies]
fastrand = "=2.5.0"
serde = { version = "=1.0.229", features = ["derive"] }
serde_json = "=1.0.154"
evdev = "=0.13.2"
nix = { version = "=0.30.1", features = ["poll", "signal", "process", "fs", "mount", "sched", "socket", "uio", "user"] }
egui = "=0.37.0"
postcard = { version = "=1.1.3", features = ["alloc"] }
