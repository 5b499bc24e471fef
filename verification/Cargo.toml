[package]
name = "hfsplus-forensic"
version = "0.2.6"
edition = "2021"
publish = false

[dependencies]
flate2 = "1"
forensicnomicon = "1"
lzfse_rust = "*"
lzvn-core = "0.1"
forensic-vfs = "0.7"
