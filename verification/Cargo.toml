[package]
name = "oxideav-hls"
version = "0.1.0"
edition = "2021"
publish = false

[dependencies]
log = "0.4"
m3u8-rs = "6"
oxideav-aac = "*"
oxideav-core = "*"
oxideav-http = "*"
oxideav-mp4 = "*"
oxideav-mpegts = "*"
url = "2"
