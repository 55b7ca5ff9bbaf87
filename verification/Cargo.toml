[package]
name = "rsacracker"
version = "0.1.0"
edition = "2021"
publish = false

[dependencies]
num-bigint = "*"
primal = "=0.3.3"
indicatif = "=0.18.6"
openssl = "=0.10.81"
ssh-key = { version = "=0.6.7", features = ["encryption"] }
rand_core = { version = "=0.6.4", features = ["getrandom"] }
