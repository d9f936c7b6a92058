[package]
name = "davsync"
version = "0.1.0"
edition = "2021"
publish = false

[dependencies]
mime_guess = "=2.0.5"
jni = "=0.21.1"
ez_jni = "=0.5.4"
