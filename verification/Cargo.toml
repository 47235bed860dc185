[package]
name = "walktree"
version = "0.1.0"
edition = "2021"
publish = false

[dependencies]
bimap = "*"
indextree = "*"
walkdir = "*"
