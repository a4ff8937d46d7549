[package]
name = "pool_manager"
version = "0.1.0"
edition = "2021"
publish = false

[dependencies]
astroport = "*"
astroport-pcl-common = "*"
cosmwasm-schema = "*"
cosmwasm-std = "*"
cw2 = "*"
cw20 = "*"
cw-storage-plus = "*"
cw-utils = "*"
itertools = "*"
