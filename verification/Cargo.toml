[package]
name = "super_star"
version = "0.1.0"
edition = "2021"
publish = false

[dependencies]
nois = "*"
cosmwasm-std = "1"
cosmwasm-schema = "1"
cw2 = "1"
cw-storage-plus = "1"
cw-utils = "1"
thiserror = "1"
