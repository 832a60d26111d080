[package]
name = "fsb5_at9"
version = "0.1.0"
edition = "2021"

[dependencies]
binrw = "=0.15.2"
