[package]
name = "flexspi_nor"
version = "0.1.0"
edition = "2021"
publish = false

[dependencies]
critical-section = "1"
mimxrt685s-pac = "*"
