[package]
name = "mqtt5"
version = "0.1.0"
edition = "2021"
publish = false
