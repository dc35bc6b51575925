[package]
name = "pty_event_loop"
version = "0.1.0"
edition = "2021"
publish = false

[dependencies]
libc = "0.2"
log = "0.4"
polling = "3"
vte = { version = "0.15", features = ["ansi"] }
