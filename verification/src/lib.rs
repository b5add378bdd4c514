//! The portable core of an AX.25 packet-radio node.

pub mod ax25;
pub mod bytes;
pub mod fields;
pub mod kiss;
pub mod netrom;
pub mod numbers;
pub mod pieces;
pub mod radio;
pub mod sdl;
pub mod text;
pub mod tune;
