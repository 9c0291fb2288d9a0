[package]
name = "serde_nbt"
version = "0.1.0"
edition = "2021"
publish = false

[dependencies]
ahash = "*"
hashbrown = "*"
indexmap = "*"
itoa = "1"
mini_leb128 = "*"
ryu = "1"
serde = "1"
zc_io = "*"
zende = "*"
