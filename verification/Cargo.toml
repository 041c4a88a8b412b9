[package]
name = "rew"
version = "0.1.0"
edition = "2021"
publish = false

[dependencies]
regex = "=1.13.1"
unidecode = "=0.3.0"
rand = "=0.7.3"
uuid = { version = "=0.8.2", features = ["v4"] }
normpath = "=1.5.2"
memchr = "=2.8.3"
clap = { version = "=4.6.7", features = ["derive"] }
pathdiff = "0.2"
