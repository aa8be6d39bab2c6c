[package]
name = "stringsext"
version = "0.1.0"
edition = "2021"
publish = false

[dependencies]
encoding_rs = "0.8"
itertools = "0.9"
anyhow = "1"
lazy_static = "1"
scoped_threadpool = "0.1"
structopt = "0.3"
