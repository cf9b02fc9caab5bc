[package]
name = "stm32f3-oscilloscope"
version = "0.1.0"
edition = "2021"
publish = false

[dependencies]
cortex-m = "*"
cortex-m-rt = "*"
stm32f30x = "*"
