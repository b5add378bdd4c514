//! NET/ROM.

pub mod wire;
