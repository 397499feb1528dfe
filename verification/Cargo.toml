[package]
name = "iptv_proxy"
version = "1.0.0"
edition = "2021"
publish = false

[dependencies]
async-trait = "*"
bytes = "*"
env_logger = "*"
http = "*"
log = "*"
memchr = "*"
num_cpus = "*"
pingora = { version = "*", features = ["proxy"] }
regex = "*"
url = "*"
urlencoding = "*"
