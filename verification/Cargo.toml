[package]
name = "oxyromon"
version = "0.1.0"
edition = "2021"
publish = false

[dependencies]
async-std = "=1.13.2"
clap = "=4.6.7"
crc32fast = "=1.5.3"
indicatif = "=0.18.6"
md5 = "=0.8.1"
rayon = "=1.12.0"
sha1_smol = "=1.0.1"
sqlx = { version = "=0.8.6", default-features = false, features = ["runtime-async-std", "sqlite"] }
walkdir = "=2.5.0"
