[package]
name = "memury_card"
version = "0.1.0"
edition = "2021"
publish = false

[dependencies]
argh = "=0.1.19"
chrono = "=0.4.45"
log = "=0.4.34"
log4rs = "=1.4.0"
notify = "=4.0.18"
serde_json = "=1.0.154"
sha2 = "=0.10.9"
walkdir = "=2.5.0"
winreg = "=0.10.1"
windows-service = "=0.8.1"
