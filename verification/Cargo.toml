[package]
name = "pinetime-hal"
version = "0.1.0"
edition = "2021"
publish = false

[dependencies]
rubble = "0.0.4"
fixed = "1"
embedded-hal = "0.2"
nrf52832-hal = { version = "0.16", default-features = false, features = ["xxAA-package"] }
st7789 = "0.6"
hrs3300 = "0.1"
cst816s = "0.1"
display-interface-spi = "0.4"
shared-bus-rtic = "0.2"
rtt-target = "0.3"
