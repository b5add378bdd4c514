//! The tuning protocol: two stations set the level of a transmitter together, one
//! measuring what the other sends.
//!
//! A telegram is a line of text, carried by any small-message link. A meter report is
//! what a measuring telegram says. Levels are in tenths of a decibel, and are written
//! with one decimal.

use vstd::prelude::*;

use crate::numbers;
use crate::numbers::parse_number;

pub mod meter_report;
pub mod sdm_link;
pub mod telegram;

pub use meter_report::MeterReport;
pub use sdm_link::{SdmLinkError, SdmTuningLink, SdmTuningLinkOptions};
pub use telegram::{TuningTelegram, TuningVerb};

verus! {

/// The number that decimal digits write, without a sign, if it fits 31 bits.
pub fn parse_nonneg_i32(s: &[u8]) -> (r: Option<i32>)
    ensures
        match r {
            Some(v) => v >= 0 && numbers::number_in(s@, 0x7FFF_FFFF) == Some(v as nat),
            None => numbers::number_in(s@, 0x7FFF_FFFF) is None,
        },
{
    match parse_number(s, 0x7FFF_FFFF) {
        Some(v) => Some(v as i32),
        None => None,
    }
}

} // verus!
