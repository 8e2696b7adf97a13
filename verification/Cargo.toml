[package]
name = "env_monitor"
version = "0.1.0"
edition = "2021"
publish = false

[dependencies]
embassy-time = "=0.5.1"
heapless = "=0.8.0"
portable-atomic = "=1.15.0"
embedded-sdmmc = "=0.10.0"
embedded-graphics = "=0.8.1"
embedded-hal = "=1.0.0"
embedded-hal-async = "=1.0.0"
bme280-rs = { version = "=0.4.1", features = ["async"] }
mipidsi = "=0.9.0"
defmt = "=1.2.0"
defmt-rtt = "=1.3.1"
panic-probe = "=1.0.0"
embassy-executor = "=0.10.0"
embassy-rp = "=0.10.0"
embassy-sync = "=0.8.0"
embassy-embedded-hal = "=0.6.0"
embassy-net = { version = "=0.9.1", features = ["udp", "dhcpv4", "proto-ipv4"] }
cyw43 = "=0.7.0"
cyw43-pio = "=0.10.0"
static_cell = "=2.1.1"

[dev-dependencies]
embassy-time = { version = "=0.5.1", features = ["std"] }
