[package]
name = "naudit"
version = "0.1.0"
edition = "2021"
publish = false

[dependencies]
clap = "=4.6.7"
globwalk = "=0.9.1"
libflate = "=2.3.2"
serde_json = "=1.0.151"
tar = "=0.4.46"
