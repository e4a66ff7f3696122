[package]
name = "android_localization"
version = "0.1.0"
edition = "2021"
publish = false

[dependencies]
regex = "=1.13.1"
csv = "=1.4.0"
xml-rs = "=0.8.4"
clap = "=2.34.0"
console = "=0.15.11"
