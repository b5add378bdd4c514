//! AX.25: callsigns, addresses, frames and parameter negotiation.

pub mod address;
pub mod callsign;
pub mod frame;
pub mod xid;

pub use address::{Address, ADDRESS_LEN};
pub use callsign::Callsign;
pub use frame::{Frame, PID_NO_LAYER3};
