[package]
name = "attributed_message"
version = "0.1.0"
edition = "2021"
publish = false
