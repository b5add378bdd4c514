[package]
name = "ax25_node_core"
version = "0.1.0"
edition = "2021"
publish = false

[dependencies]
ax25sdl = "=0.8.0"
