//! The parameters that two stations exchange in XID frames.

use vstd::prelude::*;

pub mod info_field;

verus! {

/// How lost frames are asked for again.
#[derive(Debug, Clone, Copy, PartialEq, Eq, Structural)]
pub enum RejectMode {
    /// Go back to the first frame that was lost.
    ImplicitReject,
    /// Ask for the frames that were lost, and no others.
    SelectiveReject,
}

/// The optional functions of the link layer.
#[derive(Debug, Clone, Copy, PartialEq, Eq, Structural)]
pub struct HdlcOptionalFunctions {
    /// How lost frames are asked for again.
    pub reject: RejectMode,
    /// Sequence numbers run to 127 and not to 7.
    pub modulo128: bool,
    /// One selective reject may name several frames.
    pub srej_multiframe: bool,
    /// Long packets are cut up and put together again.
    pub segmenter_reassembler: bool,
}

impl HdlcOptionalFunctions {
    /// What holds when a station says nothing of them.
    pub open spec fn preset() -> HdlcOptionalFunctions {
        HdlcOptionalFunctions {
            reject: RejectMode::SelectiveReject,
            modulo128: true,
            srej_multiframe: false,
            segmenter_reassembler: false,
        }
    }
}

impl Default for HdlcOptionalFunctions {
    fn default() -> (r: HdlcOptionalFunctions)
        ensures
            r == HdlcOptionalFunctions::preset(),
    {
        HdlcOptionalFunctions {
            reject: RejectMode::SelectiveReject,
            modulo128: true,
            srej_multiframe: false,
            segmenter_reassembler: false,
        }
    }
}

/// The classes of procedures: whether both stations may send at once.
#[derive(Debug, Clone, Copy, PartialEq, Eq, Structural)]
pub struct ClassesOfProcedures {
    /// One station sends at a time.
    pub half_duplex: bool,
}

impl Default for ClassesOfProcedures {
    fn default() -> (r: ClassesOfProcedures)
        ensures
            r == (ClassesOfProcedures { half_duplex: true }),
    {
        ClassesOfProcedures { half_duplex: true }
    }
}

/// The parameters of an XID frame. What is absent was not said.
#[derive(Debug, Clone, Copy, PartialEq, Eq, Structural)]
pub struct XidParameters {
    /// The classes of procedures.
    pub classes_of_procedures: Option<ClassesOfProcedures>,
    /// The optional functions.
    pub hdlc_optional_functions: Option<HdlcOptionalFunctions>,
    /// The longest information field that the sender takes, in bits.
    pub i_field_length_rx_bits: Option<u32>,
    /// The window that the sender takes.
    pub window_size_rx: Option<u32>,
    /// The acknowledge timer in milliseconds.
    pub ack_timer_millis: Option<u32>,
    /// The count of retries.
    pub retries: Option<u32>,
}

/// A count of octets in bits, as far as 32 bits can say.
pub open spec fn bits_of(octets: u32) -> u32 {
    if octets * 8 <= u32::MAX {
        (octets * 8) as u32
    } else {
        u32::MAX
    }
}

impl XidParameters {
    /// Nothing is said.
    pub open spec fn silent() -> XidParameters {
        XidParameters {
            classes_of_procedures: None,
            hdlc_optional_functions: None,
            i_field_length_rx_bits: None,
            window_size_rx: None,
            ack_timer_millis: None,
            retries: None,
        }
    }

    /// The longest information field in whole octets.
    pub open spec fn octets_rx(self) -> Option<u32> {
        match self.i_field_length_rx_bits {
            Some(b) => Some((b / 8) as u32),
            None => None,
        }
    }

    /// A count of octets in bits, as far as 32 bits can say.
    pub fn octets_to_bits(octets: u32) -> (bits: u32)
        ensures
            bits == bits_of(octets),
    {
        if octets <= 0x1FFF_FFFF {
            octets * 8
        } else {
            0xFFFF_FFFF
        }
    }

    /// The longest information field that the sender takes, in whole octets.
    pub fn i_field_length_rx_octets(&self) -> (r: Option<u32>)
        ensures
            r == self.octets_rx(),
    {
        match self.i_field_length_rx_bits {
            Some(bits) => Some(bits / 8),
            None => None,
        }
    }
}

impl Default for XidParameters {
    fn default() -> (r: XidParameters)
        ensures
            r == XidParameters::silent(),
    {
        XidParameters {
            classes_of_procedures: None,
            hdlc_optional_functions: None,
            i_field_length_rx_bits: None,
            window_size_rx: None,
            ack_timer_millis: None,
            retries: None,
        }
    }
}

} // verus!
