[package]
name = "textrollup"
version = "0.1.0"
edition = "2021"
rust-version = "1.92"
publish = false

[dependencies]
gstreamer = "=0.25.4"
# Used by gstreamer; later releases need a newer compiler than rust-version.
kstring = "=2.0.2"
unicode-width = "=0.2.3"
