[package]
name = "cmpth"
version = "0.1.0"
edition = "2021"
publish = false

[dependencies]
crossbeam-deque = "0.8"
rayon = "1"
libc = "0.2"
may = "0.3"
tokio = { version = "1", features = ["rt", "rt-multi-thread"] }
