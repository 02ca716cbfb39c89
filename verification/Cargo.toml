[package]
name = "usb_forensic"
version = "0.3.2"
edition = "2021"
publish = false

[dependencies]
disk-forensic = "=0.11.7"
evtx = "=0.11.2"
forensicnomicon = "=1.12.1"
jiff = "=0.2.39"
lnk-core = "=0.4.1"
mbr-partition-forensic = "=0.6.3"
peripheral-core = "=0.8.2"
plist = "=1.10.3"
serde = { version = "=1.0.229", features = ["derive"] }
serde_json = "=1.0.154"
winevt-extract = "=0.4.1"
winreg-core = "=0.2.1"

[dev-dependencies]
gpt-partition-forensic = "=0.6.2"
