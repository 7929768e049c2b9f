[package]
name = "script_asm"
version = "0.1.0"
edition = "2021"
publish = false

[dependencies]
bytebuffer = "=2.3.0"
hashbrown = "=0.17.1"
mvutils = "=1.7.2"
