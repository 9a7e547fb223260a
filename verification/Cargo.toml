[package]
name = "braavos_accumulator"
version = "0.1.0"
edition = "2021"
publish = false

[dependencies]
crypto-bigint = "*"
crypto-primes = "*"
rand = "*"
