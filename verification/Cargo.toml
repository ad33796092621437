[package]
name = "pi_slideshow"
version = "0.1.0"
edition = "2021"
publish = false

[dependencies]
image = "=0.24.9"
fastrand = "=2.5.0"
chrono = "=0.4.45"
url = "=2.5.8"
memmap2 = "=0.9.11"
clap = { version = "=4.6.7", features = ["derive"] }
couch_rs = "=0.13.0"
notify = "=8.2.0"
reqwest = { version = "=0.13.5", default-features = false, features = ["json"] }
rumqttc = "=0.25.1"
serde = { version = "1", features = ["derive"] }
serde_json = "1"
signal-hook = "=0.3.18"
sysinfo = "=0.39.6"
tokio = { version = "1", features = ["full"] }
uuid = { version = "=1.27.0", features = ["v4"] }
warp = "=0.3.7"
