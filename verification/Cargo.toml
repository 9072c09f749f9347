[package]
name = "dxe_core"
version = "0.1.0"
edition = "2021"
publish = false

[dependencies]
fixedbitset = "*"
hashbrown = "*"
r-efi = "*"
log = "*"
colog = "*"
