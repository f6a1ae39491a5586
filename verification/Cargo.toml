[package]
name = "riscv_emu"
version = "0.1.0"
edition = "2021"
publish = false

[dependencies]
xmas-elf = "*"
clap = { version = "4", features = ["derive"] }
log = "0.4"
flexi_logger = "*"
