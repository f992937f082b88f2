[package]
name = "dome_drivers"
version = "0.1.0"
edition = "2021"
publish = false

[dependencies]
cortex-m = "0.7"
cortex-m-rt = "0.7"
embedded-hal = "1"
nb = "1"
panic-halt = "*"
rtt-target = "*"
stm32f1xx-hal = { version = "*", features = ["stm32f103"] }
