[package]
name = "lab1_chat"
version = "0.1.0"
edition = "2021"
publish = false

[dependencies]
base64 = "0.10"
byteorder = "1"
bytes = "0.3"
clap = "2"
console = "0.7"
env_logger = "0.6"
json = "0.11"
log = "0.4"
mio = "0.5"
num-bigint = "0.2"
num-traits = "0.2"
primes = "0.2"
rand = "0.5"
