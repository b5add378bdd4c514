//! The transport header of NET/ROM: the five octets after the network header of a
//! datagram. It names the circuit, carries the sequence numbers of the sliding window,
//! and says what kind of message this is and which flow-control flags are up.

use vstd::prelude::*;

use crate::bytes;

verus! {

/// Octets of a transport header.
pub const TRANSPORT_HEADER_LEN: usize = 5;

/// The low half of the opcode-and-flags octet: the message type.
pub const OPCODE_MASK: u8 = 0x0F;

/// The high half of the opcode-and-flags octet: the flow-control flags.
pub const FLAGS_MASK: u8 = 0xF0;

/// More-follows (bit 5): this Information message is a fragment, and not the last.
pub const FLAG_MORE_FOLLOWS: u8 = 0x20;

/// NAK (bit 6): asks for the frame named by the receive sequence again.
pub const FLAG_NAK: u8 = 0x40;

/// Choke (bit 7): tells the far end to stop sending Information. On a Connect
/// Acknowledge it says that the circuit was refused.
pub const FLAG_CHOKE: u8 = 0x80;

/// The message types of the transport layer.
#[derive(Debug, Clone, Copy, PartialEq, Eq, Structural)]
pub enum NetRomOpcode {
    /// Opens a circuit.
    ConnectRequest,
    /// Accepts a circuit or, with the choke flag, refuses it.
    ConnectAcknowledge,
    /// Tears a circuit down.
    DisconnectRequest,
    /// Confirms that a circuit is down.
    DisconnectAcknowledge,
    /// Carries user data and an acknowledgement.
    Information,
    /// A bare acknowledgement; carries the choke and NAK flags.
    InformationAcknowledge,
}

impl NetRomOpcode {
    /// The number of the message type on the wire.
    pub open spec fn number(self) -> u8 {
        match self {
            NetRomOpcode::ConnectRequest => 0x01,
            NetRomOpcode::ConnectAcknowledge => 0x02,
            NetRomOpcode::DisconnectRequest => 0x03,
            NetRomOpcode::DisconnectAcknowledge => 0x04,
            NetRomOpcode::Information => 0x05,
            NetRomOpcode::InformationAcknowledge => 0x06,
        }
    }

    /// The message type with a number, if there is one.
    pub open spec fn numbered(n: u8) -> Option<NetRomOpcode> {
        match n {
            1 => Some(NetRomOpcode::ConnectRequest),
            2 => Some(NetRomOpcode::ConnectAcknowledge),
            3 => Some(NetRomOpcode::DisconnectRequest),
            4 => Some(NetRomOpcode::DisconnectAcknowledge),
            5 => Some(NetRomOpcode::Information),
            6 => Some(NetRomOpcode::InformationAcknowledge),
            _ => None,
        }
    }

    /// The message type that the low half of an octet names, if it names one.
    pub fn from_nibble(raw: u8) -> (r: Option<NetRomOpcode>)
        ensures
            r == NetRomOpcode::numbered(raw % 16),
    {
        proof {
            bytes::lemma_octet_masks(raw);
        }
        match raw & OPCODE_MASK {
            0x01 => Some(NetRomOpcode::ConnectRequest),
            0x02 => Some(NetRomOpcode::ConnectAcknowledge),
            0x03 => Some(NetRomOpcode::DisconnectRequest),
            0x04 => Some(NetRomOpcode::DisconnectAcknowledge),
            0x05 => Some(NetRomOpcode::Information),
            0x06 => Some(NetRomOpcode::InformationAcknowledge),
            _ => None,
        }
    }

    /// The number of the message type on the wire.
    pub fn as_u8(self) -> (n: u8)
        ensures
            n == self.number(),
            0 < n <= 0x06,
    {
        match self {
            NetRomOpcode::ConnectRequest => 0x01,
            NetRomOpcode::ConnectAcknowledge => 0x02,
            NetRomOpcode::DisconnectRequest => 0x03,
            NetRomOpcode::DisconnectAcknowledge => 0x04,
            NetRomOpcode::Information => 0x05,
            NetRomOpcode::InformationAcknowledge => 0x06,
        }
    }
}

/// A message type is told from the others by its number.
pub proof fn law_opcode_numbers_differ(op: NetRomOpcode)
    ensures
        NetRomOpcode::numbered(op.number()) == Some(op),
{
}

/// A transport header. Any opcode parses; an unknown one is left to the circuit layer
/// to reject.
#[derive(Debug, Clone, Copy, PartialEq, Eq, Structural)]
pub struct NetRomTransportHeader {
    /// The far end's slot for the circuit.
    pub circuit_index: u8,
    /// The serial number that goes with the slot.
    pub circuit_id: u8,
    /// The send sequence of this message.
    pub tx_sequence: u8,
    /// The send sequence that is expected next from the peer.
    pub rx_sequence: u8,
    /// The message type, in the low half.
    pub opcode: u8,
    /// The flow-control flags, in the high half.
    pub flags: u8,
}

impl NetRomTransportHeader {
    /// The opcode fits the low half of an octet and the flags the high half.
    pub open spec fn valid(self) -> bool {
        &&& self.opcode < 16
        &&& self.flags % 16 == 0
    }

    /// The octet that joins the opcode and the flags. What lies outside their halves
    /// is left out.
    pub open spec fn joined(self) -> u8 {
        (self.opcode % 16 + (self.flags - self.flags % 16)) as u8
    }

    /// The five octets of the header.
    pub open spec fn octets(self) -> Seq<u8> {
        seq![
            self.circuit_index,
            self.circuit_id,
            self.tx_sequence,
            self.rx_sequence,
            self.joined(),
        ]
    }
}

/// The header that the first five octets of `s` hold.
pub open spec fn transport_in(s: Seq<u8>) -> Option<NetRomTransportHeader> {
    if s.len() < TRANSPORT_HEADER_LEN {
        None
    } else {
        Some(
            NetRomTransportHeader {
                circuit_index: s[0],
                circuit_id: s[1],
                tx_sequence: s[2],
                rx_sequence: s[3],
                opcode: (s[4] % 16) as u8,
                flags: (s[4] - s[4] % 16) as u8,
            },
        )
    }
}

/// A header is read back from the octets that it is written as.
pub proof fn law_transport_round_trip(h: NetRomTransportHeader)
    requires
        h.valid(),
    ensures
        transport_in(h.octets()) == Some(h),
{
}

/// Whatever five octets hold, they hold a valid header, and they are the octets that
/// it is written as.
pub proof fn law_transport_octets_round_trip(s: Seq<u8>)
    requires
        s.len() == TRANSPORT_HEADER_LEN,
    ensures
        transport_in(s) matches Some(h) && h.valid() && h.octets() == s,
{
    let h: NetRomTransportHeader = transport_in(s)->0;
    assert(h.octets() =~= s);
}

impl NetRomTransportHeader {
    /// Whether the choke flag is up.
    pub fn choke(&self) -> (r: bool)
        ensures
            r == (self.flags >= 128),
    {
        proof {
            bytes::lemma_octet_masks(self.flags);
        }
        self.flags & FLAG_CHOKE != 0
    }

    /// Whether the NAK flag is up.
    pub fn nak(&self) -> (r: bool)
        ensures
            r == (self.flags / 64 % 2 == 1),
    {
        proof {
            bytes::lemma_octet_masks(self.flags);
        }
        self.flags & FLAG_NAK != 0
    }

    /// Whether the more-follows flag is up.
    pub fn more_follows(&self) -> (r: bool)
        ensures
            r == (self.flags / 32 % 2 == 1),
    {
        proof {
            bytes::lemma_octet_masks(self.flags);
        }
        self.flags & FLAG_MORE_FOLLOWS != 0
    }

    /// The octet that joins the opcode and the flags.
    pub fn opcode_and_flags(&self) -> (b: u8)
        ensures
            b == self.joined(),
    {
        proof {
            bytes::lemma_join_halves(self.opcode, self.flags);
        }
        (self.opcode & OPCODE_MASK) | (self.flags & FLAGS_MASK)
    }

    /// Appends the five octets of the header to `out`.
    pub(crate) fn append_to(&self, out: &mut Vec<u8>)
        ensures
            final(out)@ == old(out)@ + self.octets(),
    {
        out.push(self.circuit_index);
        out.push(self.circuit_id);
        out.push(self.tx_sequence);
        out.push(self.rx_sequence);
        out.push(self.opcode_and_flags());
        assert(out@ =~= old(out)@ + self.octets());
    }

    /// Writes the header over the front of `dst`. `None` if `dst` is too short.
    pub fn encode(&self, dst: &mut [u8]) -> (r: Option<()>)
        ensures
            bytes::written(old(dst)@, final(dst)@, self.octets(), r is Some),
    {
        let mut out: Vec<u8> = Vec::new();
        self.append_to(&mut out);
        assert(out@ =~= self.octets());
        match bytes::put_front(dst, out.as_slice()) {
            Some(_) => Some(()),
            None => None,
        }
    }

    /// Reads a header off the front of `src`. `None` if `src` is too short.
    pub fn decode(src: &[u8]) -> (r: Option<NetRomTransportHeader>)
        ensures
            r == transport_in(src@),
    {
        if src.len() < TRANSPORT_HEADER_LEN {
            return None;
        }
        let op: u8 = src[4];
        proof {
            bytes::lemma_octet_masks(op);
        }
        Some(
            NetRomTransportHeader {
                circuit_index: src[0],
                circuit_id: src[1],
                tx_sequence: src[2],
                rx_sequence: src[3],
                opcode: op & OPCODE_MASK,
                flags: op & FLAGS_MASK,
            },
        )
    }
}

} // verus!
