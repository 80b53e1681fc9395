[package]
name = "click_mute"
version = "0.1.0"
edition = "2021"
publish = false

[dependencies]
rand = "=0.8.8"
thiserror = "=1.0.69"
serde = "=1.0.229"
serde_derive = "=1.0.229"
toml = "=0.5.11"
atomicwrites = "=0.3.1"
hound = "=3.5.1"
clap = "=3.2.25"
directories = "=3.0.2"
epoll = "=4.4.0"
libc = "=0.2.191"
evdev = "=0.12.2"
jack = "=0.13.5"
egui = "=0.31.1"
egui-miniquad = "=0.16.0"
miniquad = "=0.4.11"
