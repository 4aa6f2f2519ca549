[package]
name = "led_sequencer"
version = "0.1.0"
edition = "2021"
publish = false

[dependencies]
rppal = "0.9"
