[package]
name = "seekable-iterator"
version = "0.1.0"
edition = "2021"
publish = false

[dependencies]
anchored-pool = "=0.2.0"
clone-behavior = "=0.0.1"
generic-container = "=0.2.2"
lender = "=0.3.2"
lending-iterator = "=0.1.7"
