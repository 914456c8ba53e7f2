[package]
name = "micro_ndarray"
version = "0.1.0"
edition = "2021"

[dependencies]
vec_split = "*"
