[package]
name = "bump_allocator"
version = "0.1.0"
edition = "2021"
publish = false

[dependencies]
memory_addr = "=0.4.1"
