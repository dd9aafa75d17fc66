[package]
name = "ssd1306_display"
version = "0.1.0"
edition = "2021"
publish = false

[dependencies]
embedded-hal = "=0.2.7"
esp32c3-hal = { version = "0.15.1", default-features = false }
fugit = "=0.3.9"
panic-halt = "=0.2.0"
riscv-rt = "=0.9.0"
