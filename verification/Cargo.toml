[package]
name = "fb_console"
version = "0.1.0"
edition = "2021"
publish = false

[dependencies]
bootloader_api = "*"
conquer-once = "*"
font8x8 = "*"
log = "*"
spinning_top = "*"
