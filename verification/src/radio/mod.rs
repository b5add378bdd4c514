//! The control channel to the radio behind a modem: signal levels, carrier sense and
//! keying, which the modem's own protocol does not carry.
//!
//! Levels are in tenths of a decibel and times in microseconds of a monotonic clock.

use vstd::prelude::*;

pub mod levels;
pub mod rssi_tagging;
pub mod tait;

verus! {

/// What a radio's control channel can do, as a set of flags.
#[derive(Debug, Clone, Copy, PartialEq, Eq, Structural)]
pub struct RadioCapabilities {
    flags: u8,
}

/// The flag with number `i`.
pub open spec fn flag(i: int) -> u8 {
    if i == 0 {
        0x01
    } else if i == 1 {
        0x02
    } else if i == 2 {
        0x04
    } else if i == 3 {
        0x08
    } else if i == 4 {
        0x10
    } else if i == 5 {
        0x20
    } else if i == 6 {
        0x40
    } else {
        0x80
    }
}

/// Flag `i` is up in `flags`.
pub open spec fn has_flag(flags: u8, i: int) -> bool {
    flags & flag(i) != 0
}

/// Every flag of `b` is up in `a`.
pub open spec fn covers(a: u8, b: u8) -> bool {
    forall|i: int| 0 <= i < 8 && has_flag(b, i) ==> #[trigger] has_flag(a, i)
}

impl View for RadioCapabilities {
    type V = u8;

    closed spec fn view(&self) -> u8 {
        self.flags
    }
}

impl RadioCapabilities {
    /// Nothing.
    pub fn none() -> (r: RadioCapabilities)
        ensures
            r@ == 0,
    {
        RadioCapabilities { flags: 0 }
    }

    /// The signal level can be read.
    pub fn rssi_read() -> (r: RadioCapabilities)
        ensures
            r@ == flag(0),
    {
        RadioCapabilities { flags: 0x01 }
    }

    /// Carrier sense is reported.
    pub fn carrier_sense() -> (r: RadioCapabilities)
        ensures
            r@ == flag(1),
    {
        RadioCapabilities { flags: 0x02 }
    }

    /// The transmitter can be keyed.
    pub fn transmitter_control() -> (r: RadioCapabilities)
        ensures
            r@ == flag(2),
    {
        RadioCapabilities { flags: 0x04 }
    }

    /// The channel can be changed.
    pub fn channel_change() -> (r: RadioCapabilities)
        ensures
            r@ == flag(3),
    {
        RadioCapabilities { flags: 0x08 }
    }

    /// The frequency can be set.
    pub fn frequency_control() -> (r: RadioCapabilities)
        ensures
            r@ == flag(4),
    {
        RadioCapabilities { flags: 0x10 }
    }

    /// The transmit power can be set.
    pub fn tx_power_control() -> (r: RadioCapabilities)
        ensures
            r@ == flag(5),
    {
        RadioCapabilities { flags: 0x20 }
    }

    /// The radio carries short messages of its own.
    pub fn side_channel() -> (r: RadioCapabilities)
        ensures
            r@ == flag(6),
    {
        RadioCapabilities { flags: 0x40 }
    }

    /// Whether every flag of `other` is up here.
    pub fn contains(self, other: RadioCapabilities) -> (r: bool)
        ensures
            r == covers(self@, other@),
    {
        let r: bool = self.flags & other.flags == other.flags;
        proof {
            lemma_contains(self.flags, other.flags);
        }
        r
    }

    /// The flags as one octet.
    pub fn bits(self) -> (r: u8)
        ensures
            r == self@,
    {
        self.flags
    }

    /// The flags that are up in either.
    pub fn union(self, other: RadioCapabilities) -> (r: RadioCapabilities)
        ensures
            r@ == self@ | other@,
            forall|i: int|
                0 <= i < 8 ==> #[trigger] has_flag(r@, i) == (has_flag(self@, i) || has_flag(
                    other@,
                    i,
                )),
    {
        proof {
            lemma_union(self.flags, other.flags);
        }
        RadioCapabilities { flags: self.flags | other.flags }
    }
}

impl core::ops::BitOr for RadioCapabilities {
    type Output = RadioCapabilities;

    fn bitor(self, rhs: RadioCapabilities) -> (r: RadioCapabilities)
        ensures
            r@ == self@ | rhs@,
    {
        self.union(rhs)
    }
}

impl vstd::std_specs::ops::BitOrSpecImpl for RadioCapabilities {
    open spec fn obeys_bitor_spec() -> bool {
        true
    }

    open spec fn bitor_req(self, rhs: RadioCapabilities) -> bool {
        true
    }

    closed spec fn bitor_spec(self, rhs: RadioCapabilities) -> RadioCapabilities {
        RadioCapabilities { flags: self.flags | rhs.flags }
    }
}

proof fn lemma_contains(a: u8, b: u8)
    ensures
        (a & b == b) == covers(a, b),
{
    assert((a & b == b) == ((b & 0x01 != 0 ==> a & 0x01 != 0) && (b & 0x02 != 0 ==> a & 0x02 != 0)
        && (b & 0x04 != 0 ==> a & 0x04 != 0) && (b & 0x08 != 0 ==> a & 0x08 != 0) && (b & 0x10 != 0
        ==> a & 0x10 != 0) && (b & 0x20 != 0 ==> a & 0x20 != 0) && (b & 0x40 != 0 ==> a & 0x40
        != 0) && (b & 0x80 != 0 ==> a & 0x80 != 0))) by (bit_vector);
    if covers(a, b) {
        assert(has_flag(b, 0) ==> has_flag(a, 0));
        assert(has_flag(b, 1) ==> has_flag(a, 1));
        assert(has_flag(b, 2) ==> has_flag(a, 2));
        assert(has_flag(b, 3) ==> has_flag(a, 3));
        assert(has_flag(b, 4) ==> has_flag(a, 4));
        assert(has_flag(b, 5) ==> has_flag(a, 5));
        assert(has_flag(b, 6) ==> has_flag(a, 6));
        assert(has_flag(b, 7) ==> has_flag(a, 7));
    }
}

proof fn lemma_union(a: u8, b: u8)
    ensures
        forall|i: int|
            0 <= i < 8 ==> #[trigger] has_flag(a | b, i) == (has_flag(a, i) || has_flag(b, i)),
{
    assert forall|i: int| 0 <= i < 8 implies #[trigger] has_flag(a | b, i) == (has_flag(a, i)
        || has_flag(b, i)) by {
        let m: u8 = flag(i);
        assert((a | b) & m != 0 <==> (a & m != 0 || b & m != 0)) by (bit_vector);
    }
}

/// Two sets of capabilities together hold those of each, and no others.
pub proof fn law_a_union_has_both(a: u8, b: u8)
    ensures
        covers(a | b, a),
        covers(a | b, b),
        forall|i: int|
            0 <= i < 8 && #[trigger] has_flag(a | b, i) ==> has_flag(a, i) || has_flag(b, i),
{
    lemma_union(a, b);
}

/// One edge of the hardware carrier sense.
#[derive(Debug, Clone, Copy, PartialEq, Eq, Structural)]
pub struct CarrierSenseChange {
    /// The channel became busy, or idle.
    pub busy: bool,
    /// When the radio reported it.
    pub at_us: u64,
}

/// What is known of the signal of one frame.
#[derive(Debug, Clone, Copy, PartialEq, Eq, Structural)]
pub struct RadioMetadata {
    /// The signal level: the median of the samples.
    pub rssi_dbm_tenths: Option<i16>,
    /// The signal level above the noise floor.
    pub snr_db_tenths: Option<i16>,
    /// The noise floor.
    pub noise_floor_dbm_tenths: Option<i16>,
    /// The weakest sample.
    pub rssi_min_dbm_tenths: Option<i16>,
    /// The strongest sample.
    pub rssi_max_dbm_tenths: Option<i16>,
    /// How many samples there are.
    pub rssi_sample_count: u16,
    /// When the carrier rose.
    pub carrier_rise_at_us: Option<u64>,
    /// Which frame of its transmission this is, from 0.
    pub burst_index: Option<u16>,
    /// How long the frame was on the air.
    pub estimated_airtime_us: Option<u64>,
    /// How long the carrier was up before the data, for the first frame of a
    /// transmission.
    pub pre_data_carrier_us: Option<i64>,
}

impl RadioMetadata {
    /// Nothing is known.
    pub open spec fn blank() -> RadioMetadata {
        RadioMetadata {
            rssi_dbm_tenths: None,
            snr_db_tenths: None,
            noise_floor_dbm_tenths: None,
            rssi_min_dbm_tenths: None,
            rssi_max_dbm_tenths: None,
            rssi_sample_count: 0,
            carrier_rise_at_us: None,
            burst_index: None,
            estimated_airtime_us: None,
            pre_data_carrier_us: None,
        }
    }
}

impl Default for RadioMetadata {
    fn default() -> (r: RadioMetadata)
        ensures
            r == RadioMetadata::blank(),
    {
        RadioMetadata {
            rssi_dbm_tenths: None,
            snr_db_tenths: None,
            noise_floor_dbm_tenths: None,
            rssi_min_dbm_tenths: None,
            rssi_max_dbm_tenths: None,
            rssi_sample_count: 0,
            carrier_rise_at_us: None,
            burst_index: None,
            estimated_airtime_us: None,
            pre_data_carrier_us: None,
        }
    }
}

} // verus!
