[package]
name = "vmem"
version = "0.1.0"
edition = "2021"
publish = false

[dependencies]
bit_field = "*"
raw-cpuid = "*"
xmas-elf = "*"
qp-trie = "*"
