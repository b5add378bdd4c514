//! Tait mobile radios, driven over their CCDI serial control channel.

use vstd::prelude::*;

pub mod ccdi;
pub mod driver;
pub mod transparent;

verus! {

/// The serial rate that these radios are commonly programmed for.
pub const DEFAULT_BAUD: u32 = 28800;

} // verus!
