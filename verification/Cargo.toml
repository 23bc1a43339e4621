[package]
name = "kwast"
version = "0.1.0"
edition = "2021"
publish = false

[dependencies]
bitflags = "1"
lazy_static = "1"
memoffset = "0.9"
multiboot2 = "*"
raw-cpuid = "*"
spin = "0.9"
static_assertions = "1"
volatile = "*"
