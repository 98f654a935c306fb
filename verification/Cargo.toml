[package]
name = "redscript-compiler"
version = "1.0.0"
edition = "2021"
publish = false

[dependencies]
ahash = "=0.8.12"
hashbrown = "=0.14.5"
itertools = "=0.11.0"
sequence_trie = "=0.3.6"
