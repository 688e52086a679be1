[package]
name = "soos"
version = "0.1.0"
edition = "2021"
publish = false

[dependencies]
elf_rs = "=0.3.1"
chrono = { version = "=0.4.45", default-features = false }
x86_64 = { version = "=0.15.5", default-features = false, features = ["instructions"] }
log = "=0.4.35"
thiserror = "=2.0.21"
spin = "=0.9.9"
anyhow = { version = "=1.0.104", default-features = false }
heapless = "=0.8.0"
pc-keyboard = "=0.9.0"
vte = { version = "=0.15.0", default-features = false }
limine = "=0.5.0"
minipng = "=1.0.0"
ringbuffer = "=0.16.0"
byte-unit = "=5.2.6"
xsave = "=2.0.2"
